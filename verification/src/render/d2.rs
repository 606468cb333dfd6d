//! The render slot table and the shapes of the meshes in it.

use crate::object::DrawUpdate;
use crate::render::View as Fit;
use vstd::prelude::*;

verus! {

/// Number of ring vertices of a circle and of a rounded rectangle.
pub const SEGMENTS: u16 = 40;

/// Number of ring vertices on each corner of a rounded rectangle.
pub const CORNER_SEGMENTS: u16 = 10;

/// The state that the projection is computed from: the sizes of window and canvas, the
/// camera, and how the canvas is fitted into the window. `P` is the caller's type for a
/// pair of coordinates, `Z` the one for the zoom factor.
///
/// Whatever changes the projection raises `canvas_update`. The projection is computed
/// when the flag is taken, once for any number of changes.
pub struct Camera2d<P, Z> {
    pub window: P,
    pub canvas: P,
    pub position: P,
    pub zoom: Z,
    /// The fit that is used while the window is wider in proportion than the canvas.
    pub view_width: Fit,
    /// The fit that is used otherwise.
    pub view_height: Fit,
    /// The window itself is to be given the size `window`.
    pub window_update: bool,
    /// The projection is to be computed again.
    pub canvas_update: bool,
}

impl<P: Copy, Z: Copy> Camera2d<P, Z> {
    /// A camera over the given window and canvas. The canvas keeps its height in a
    /// wide window and its width in a narrow one. Nothing is computed yet.
    pub fn new(window: P, canvas: P, position: P, zoom: Z) -> (r: Self)
        ensures
            r == (Camera2d {
                window,
                canvas,
                position,
                zoom,
                view_width: Fit::KeepHeight,
                view_height: Fit::KeepWidth,
                window_update: false,
                canvas_update: false,
            }),
    {
        Camera2d {
            window,
            canvas,
            position,
            zoom,
            view_width: Fit::KeepHeight,
            view_height: Fit::KeepWidth,
            window_update: false,
            canvas_update: false,
        }
    }

    /// Moves the camera.
    pub fn set(self, pos: P) -> (r: Self)
        ensures
            r == (Camera2d { position: pos, canvas_update: true, ..self }),
    {
        Camera2d { position: pos, canvas_update: true, ..self }
    }

    /// Where the camera is.
    pub fn get(&self) -> (pos: P)
        ensures
            pos == self.position,
    {
        self.position
    }

    /// Sets the zoom factor.
    pub fn set_zoom(self, n: Z) -> (r: Self)
        ensures
            r == (Camera2d { zoom: n, canvas_update: true, ..self }),
    {
        Camera2d { zoom: n, canvas_update: true, ..self }
    }

    /// The zoom factor.
    pub fn get_zoom(&self) -> (n: Z)
        ensures
            n == self.zoom,
    {
        self.zoom
    }

    /// Chooses the fit for a window that is wider in proportion than the canvas, and
    /// the fit for one that is not.
    pub fn view(self, width: Fit, height: Fit) -> (r: Self)
        ensures
            r == (Camera2d { view_width: width, view_height: height, ..self }),
    {
        Camera2d { view_width: width, view_height: height, ..self }
    }

    /// Asks for a window of the given size.
    pub fn window(self, size: P) -> (r: Self)
        ensures
            r == (Camera2d { window: size, window_update: true, canvas_update: true, ..self }),
    {
        Camera2d { window: size, window_update: true, canvas_update: true, ..self }
    }

    /// Sets the size of the canvas.
    pub fn canvas(self, size: P) -> (r: Self)
        ensures
            r == (Camera2d { canvas: size, canvas_update: true, ..self }),
    {
        Camera2d { canvas: size, canvas_update: true, ..self }
    }

    /// Takes note that the window was given the size `size` from outside.
    pub fn resize_event(&mut self, size: P)
        ensures
            *final(self) == (Camera2d { window: size, canvas_update: true, ..*old(self) }),
    {
        self.window = size;
        self.canvas_update = true;
    }

    /// Says whether the window is to be resized, and takes the request back.
    pub fn take_window_update(&mut self) -> (due: bool)
        ensures
            due == old(self).window_update,
            *final(self) == (Camera2d { window_update: false, ..*old(self) }),
    {
        let due = self.window_update;
        self.window_update = false;
        due
    }

    /// Says whether the projection is to be computed again, and takes the request back:
    /// asked twice with no change in between, the second answer is no.
    pub fn take_canvas_update(&mut self) -> (due: bool)
        ensures
            due == old(self).canvas_update,
            *final(self) == (Camera2d { canvas_update: false, ..*old(self) }),
    {
        let due = self.canvas_update;
        self.canvas_update = false;
        due
    }

    /// The fit that governs, given whether the window is wider in proportion than the
    /// canvas.
    pub fn active(&self, wider: bool) -> (fit: Fit)
        ensures
            fit == if wider {
                self.view_width
            } else {
                self.view_height
            },
    {
        if wider {
            self.view_width
        } else {
            self.view_height
        }
    }
}

/// One node's geometry as it is handed to the GPU.
pub struct Slot<V> {
    pub vertices: Vec<V>,
    pub indices: Vec<u16>,
    /// The texture the geometry is drawn with, if any.
    pub image: Option<usize>,
    pub update: DrawUpdate,
}

/// The mathematical content of a [`Slot`], and of a batch of slots.
pub ghost struct SlotView<V> {
    pub vertices: Seq<V>,
    pub indices: Seq<u16>,
    pub image: Option<usize>,
    pub update: DrawUpdate,
}

impl<V> View for Slot<V> {
    type V = SlotView<V>;

    open spec fn view(&self) -> SlotView<V> {
        SlotView {
            vertices: self.vertices@,
            indices: self.indices@,
            image: self.image,
            update: self.update,
        }
    }
}

impl<V> SlotView<V> {
    /// The slot a node gets when it enters the tree: no geometry, no texture, and no
    /// buffers on the GPU yet.
    pub open spec fn fresh() -> SlotView<V> {
        SlotView { vertices: seq![], indices: seq![], image: None, update: DrawUpdate::Create }
    }

    /// Whether the geometry of the slot is what a draw can make of `before`: the same,
    /// none, a fan of [`SEGMENTS`] ring vertices round a centre, or a quad.
    pub open spec fn drawn_from(self, before: SlotView<V>) -> bool {
        ||| self.vertices == before.vertices && self.indices == before.indices
        ||| self.vertices.len() == 0 && self.indices.len() == 0
        ||| self.vertices.len() == SEGMENTS + 1 && self.indices == fan(SEGMENTS)
        ||| self.vertices.len() == 4 && self.indices == quad()
    }

    /// Every index addresses a vertex of the slot.
    pub open spec fn closed(self) -> bool {
        forall|k: int| 0 <= k < self.indices.len() ==> (#[trigger] self.indices[k]) < self.vertices.len()
    }
}

/// The content of an entry of the table: `None` for a slot that was given back.
pub open spec fn entry_view<V>(entry: Option<Slot<V>>) -> Option<SlotView<V>> {
    match entry {
        Some(slot) => Some(slot@),
        None => None,
    }
}

/// The render slot table. A node refers to its slot by index, and an index is never
/// handed out twice.
pub struct Renders<V> {
    pub slots: Vec<Option<Slot<V>>>,
}

impl<V> View for Renders<V> {
    type V = Seq<Option<SlotView<V>>>;

    open spec fn view(&self) -> Seq<Option<SlotView<V>>> {
        Seq::new(self.slots@.len(), |i: int| entry_view(self.slots@[i]))
    }
}

impl<V> Renders<V> {
    /// Whether `id` is the index of a slot that is in use.
    pub open spec fn live(table: Seq<Option<SlotView<V>>>, id: int) -> bool {
        0 <= id < table.len() && table[id] is Some
    }

    /// `table` with the geometry of slot `id` replaced. Texture and tag stay; an index
    /// that names no slot in use changes nothing.
    pub open spec fn with_geometry(
        table: Seq<Option<SlotView<V>>>,
        id: int,
        vertices: Seq<V>,
        indices: Seq<u16>,
    ) -> Seq<Option<SlotView<V>>> {
        if Self::live(table, id) {
            table.update(id, Some(SlotView { vertices: vertices, indices: indices, ..table[id]->0 }))
        } else {
            table
        }
    }

    /// `table` with the texture of slot `id` replaced. Geometry and tag stay; an index
    /// that names no slot in use changes nothing.
    pub open spec fn with_image(table: Seq<Option<SlotView<V>>>, id: int, image: Option<usize>) -> Seq<
        Option<SlotView<V>>,
    > {
        if Self::live(table, id) {
            table.update(id, Some(SlotView { image: image, ..table[id]->0 }))
        } else {
            table
        }
    }

    /// `table` with the tag of slot `id` raised to at least `update`. An index that
    /// names no slot in use changes nothing.
    pub open spec fn with_mark(table: Seq<Option<SlotView<V>>>, id: int, update: DrawUpdate) -> Seq<
        Option<SlotView<V>>,
    > {
        if Self::live(table, id) {
            table.update(id, Some(SlotView { update: table[id]->0.update.join(update), ..table[id]->0 }))
        } else {
            table
        }
    }

    /// `table` with the triangles of `outline` in slot `id`. A blank outline changes
    /// nothing.
    pub open spec fn with_outline(table: Seq<Option<SlotView<V>>>, id: int, outline: Outline<V>) -> Seq<
        Option<SlotView<V>>,
    > {
        if outline is Blank {
            table
        } else {
            Self::with_geometry(table, id, outline.vertices(), outline.indices())
        }
    }

    /// Nothing was taken back between `before` and `after`: every slot is still there,
    /// in use if it was in use, and no tag ranks lower than it did.
    pub open spec fn kept(before: Seq<Option<SlotView<V>>>, after: Seq<Option<SlotView<V>>>) -> bool {
        &&& before.len() <= after.len()
        &&& forall|i: int|
            0 <= i < before.len() ==> match #[trigger] before[i] {
                Some(slot) => after[i] is Some && after[i]->0.update.rank() >= slot.update.rank(),
                None => after[i] is None,
            }
    }

    /// The table only grew between `before` and `after`: nothing was taken back, no
    /// geometry changed, and the slots that were added are empty and tagged `Create`.
    pub open spec fn grown(before: Seq<Option<SlotView<V>>>, after: Seq<Option<SlotView<V>>>) -> bool {
        &&& Self::kept(before, after)
        &&& forall|i: int|
            0 <= i < before.len() && (#[trigger] before[i]) is Some ==> after[i]->0.vertices
                == before[i]->0.vertices && after[i]->0.indices == before[i]->0.indices
        &&& forall|i: int|
            before.len() <= i < after.len() ==> (#[trigger] after[i]) is Some
                && after[i]->0.vertices.len() == 0 && after[i]->0.indices.len() == 0
                && after[i]->0.update == DrawUpdate::Create
    }

    /// Whether every slot in use in `after` holds what a draw can make of the slot in
    /// `before`.
    pub open spec fn drawn(before: Seq<Option<SlotView<V>>>, after: Seq<Option<SlotView<V>>>) -> bool {
        &&& before.len() == after.len()
        &&& forall|i: int|
            0 <= i < after.len() && (#[trigger] after[i]) is Some && before[i] is Some
                ==> after[i]->0.drawn_from(before[i]->0)
    }

    /// An empty table.
    pub fn new() -> (r: Self)
        ensures
            r@ =~= Seq::<Option<SlotView<V>>>::empty(),
    {
        Renders { slots: Vec::new() }
    }

    /// Number of slots ever handed out.
    pub fn len(&self) -> (n: usize)
        ensures
            n == self@.len(),
    {
        self.slots.len()
    }

    /// Whether `id` is the index of a slot that is in use.
    pub fn is_live(&self, id: usize) -> (r: bool)
        ensures
            r == Self::live(self@, id as int),
    {
        if id < self.slots.len() {
            self.slots[id].is_some()
        } else {
            false
        }
    }

    /// Hands out a new slot at the end of the table: empty, and tagged `Create`.
    pub fn new_render(&mut self) -> (id: usize)
        ensures
            id == old(self)@.len(),
            final(self)@ == old(self)@.push(Some(SlotView::fresh())),
    {
        self.slots.push(
            Some(
                Slot {
                    vertices: Vec::new(),
                    indices: Vec::new(),
                    image: None,
                    update: DrawUpdate::Create,
                },
            ),
        );
        assert(self@ =~= old(self)@.push(Some(SlotView::fresh())));
        self.slots.len() - 1
    }

    /// Gives slot `id` back. The entry stays in the table, empty, so that the other
    /// indices keep their meaning; an index that names no slot changes nothing.
    pub fn del_render(&mut self, id: usize)
        ensures
            final(self)@ == if id < old(self)@.len() {
                old(self)@.update(id as int, None)
            } else {
                old(self)@
            },
    {
        if id < self.slots.len() {
            self.slots[id] = None;
            assert(self@ =~= old(self)@.update(id as int, None));
        } else {
            assert(self@ =~= old(self)@);
        }
    }

    /// Replaces the geometry of slot `id`.
    pub fn render(&mut self, id: usize, vert: Vec<V>, indi: Vec<u16>)
        ensures
            final(self)@ == Self::with_geometry(old(self)@, id as int, vert@, indi@),
    {
        if id < self.slots.len() {
            if let Some(slot) = &mut self.slots[id] {
                slot.vertices = vert;
                slot.indices = indi;
            }
        }
        assert(self@ =~= Self::with_geometry(old(self)@, id as int, vert@, indi@));
    }

    /// Sets the texture that slot `id` is drawn with.
    pub fn set_image(&mut self, id: usize, image: Option<usize>)
        ensures
            final(self)@ == Self::with_image(old(self)@, id as int, image),
    {
        if id < self.slots.len() {
            if let Some(slot) = &mut self.slots[id] {
                slot.image = image;
            }
        }
        assert(self@ =~= Self::with_image(old(self)@, id as int, image));
    }

    /// Raises the tag of slot `id` to at least `update`. A tag is never lowered here:
    /// only the batcher, which does the work, takes a tag back.
    pub fn mark(&mut self, id: usize, update: DrawUpdate)
        ensures
            final(self)@ == Self::with_mark(old(self)@, id as int, update),
    {
        if id < self.slots.len() {
            if let Some(slot) = &mut self.slots[id] {
                slot.update = slot.update.merge(update);
            }
        }
        assert(self@ =~= Self::with_mark(old(self)@, id as int, update));
    }

    /// What is kept stays kept: the relation carries over any number of steps.
    pub proof fn kept_is_transitive(
        a: Seq<Option<SlotView<V>>>,
        b: Seq<Option<SlotView<V>>>,
        c: Seq<Option<SlotView<V>>>,
    )
        requires
            Self::kept(a, b),
            Self::kept(b, c),
        ensures
            Self::kept(a, c),
    {
        assert forall|i: int| 0 <= i < a.len() implies match #[trigger] a[i] {
            Some(slot) => c[i] is Some && c[i]->0.update.rank() >= slot.update.rank(),
            None => c[i] is None,
        } by {
            let _ = b[i];
        };
    }

    /// What draws make of what draws made is what a draw can make, as long as no slot
    /// is given back in between.
    pub proof fn drawn_is_transitive(
        a: Seq<Option<SlotView<V>>>,
        b: Seq<Option<SlotView<V>>>,
        c: Seq<Option<SlotView<V>>>,
    )
        requires
            Self::drawn(a, b),
            Self::drawn(b, c),
            Self::kept(a, b),
        ensures
            Self::drawn(a, c),
    {
        assert forall|i: int| 0 <= i < c.len() && (#[trigger] c[i]) is Some && a[i] is Some implies c[i]->0.drawn_from(
            a[i]->0,
        ) by {
            let _ = a[i];
            let _ = b[i];
        };
    }

    /// A table that grew and then grew again has grown.
    pub proof fn grown_is_transitive(
        a: Seq<Option<SlotView<V>>>,
        b: Seq<Option<SlotView<V>>>,
        c: Seq<Option<SlotView<V>>>,
    )
        requires
            Self::grown(a, b),
            Self::grown(b, c),
        ensures
            Self::grown(a, c),
    {
        Self::kept_is_transitive(a, b, c);
        assert forall|i: int| 0 <= i < a.len() && (#[trigger] a[i]) is Some implies c[i]->0.vertices
            == a[i]->0.vertices && c[i]->0.indices == a[i]->0.indices by {
            let _ = b[i];
        };
        assert forall|i: int| a.len() <= i < c.len() implies (#[trigger] c[i]) is Some
            && c[i]->0.vertices.len() == 0 && c[i]->0.indices.len() == 0 && c[i]->0.update
            == DrawUpdate::Create by {
            if i < b.len() {
                let _ = b[i];
            }
        };
    }

    /// A slot tagged `Create` stays tagged `Create` for as long as nothing is taken
    /// back: until the batcher has read the table, the slot's buffers will be made.
    pub proof fn create_survives(
        before: Seq<Option<SlotView<V>>>,
        after: Seq<Option<SlotView<V>>>,
        id: int,
    )
        requires
            Self::kept(before, after),
            Self::live(before, id),
            before[id]->0.update == DrawUpdate::Create,
        ensures
            Self::live(after, id),
            after[id]->0.update == DrawUpdate::Create,
    {
        let _ = before[id];
    }
}

/// Corner `k` of the index list of a fan over `segments` ring vertices: vertex 0 is the
/// centre, vertices `1..=segments` the ring. Triangle `t` joins the centre with ring
/// vertex `t + 1` and the next one; the last triangle closes the ring at vertex 1.
pub open spec fn fan_index(segments: int, k: int) -> int {
    let t = k / 3;
    if k % 3 == 0 {
        0
    } else if k % 3 == 1 {
        t + 1
    } else if t + 1 == segments {
        1
    } else {
        t + 2
    }
}

/// The index list of a fan over `segments` ring vertices: `segments` triangles.
pub open spec fn fan(segments: u16) -> Seq<u16> {
    Seq::new(3 * segments as nat, |k: int| fan_index(segments as int, k) as u16)
}

/// The index list of a quad whose corners are numbered round the outline: the triangles
/// `0 1 3` and `1 2 3`.
pub open spec fn quad() -> Seq<u16> {
    seq![0u16, 1u16, 3u16, 1u16, 2u16, 3u16]
}

/// Builds the index list of a fan over `segments` ring vertices.
pub fn fan_indices(segments: u16) -> (r: Vec<u16>)
    ensures
        r@ == fan(segments),
{
    let mut r: Vec<u16> = Vec::new();
    if segments == 0 {
        assert(r@ =~= fan(segments));
        return r;
    }
    let mut i: u16 = 1;
    while i < segments
        invariant
            1 <= i <= segments,
            r@.len() == 3 * (i - 1),
            forall|k: int| 0 <= k < r@.len() ==> r@[k] == fan_index(segments as int, k) as u16,
        decreases segments - i,
    {
        r.push(0);
        r.push(i);
        r.push(i + 1);
        i += 1;
    }
    r.push(0);
    r.push(segments);
    r.push(1);
    assert(r@ =~= fan(segments));
    r
}

/// Builds the index list of a quad.
pub fn quad_indices() -> (r: Vec<u16>)
    ensures
        r@ == quad(),
{
    let mut r: Vec<u16> = Vec::new();
    r.push(0);
    r.push(1);
    r.push(3);
    r.push(1);
    r.push(2);
    r.push(3);
    assert(r@ =~= quad());
    r
}

/// The corner of a rounded rectangle that ring vertex `step` lies on. The ring runs
/// through the corners one after the other, [`CORNER_SEGMENTS`] vertices on each, and
/// vertex `step` points in the direction of `step` parts of [`SEGMENTS`] of a full turn.
pub fn corner_of(step: u16) -> (corner: u16)
    ensures
        corner == step / CORNER_SEGMENTS,
{
    step / CORNER_SEGMENTS
}

/// What a shape is made of, as far as its triangles go.
#[derive(Clone, Copy, PartialEq, Eq, Structural, Debug)]
pub enum Shape {
    /// Nothing is drawn.
    Blank,
    /// A fan round the centre, with [`SEGMENTS`] ring vertices.
    Circle,
    /// A rectangle: a quad, or, with rounded corners, a fan like a circle's, with
    /// [`CORNER_SEGMENTS`] of the ring vertices on each corner.
    Rect { rounded: bool },
    /// A quad that a texture is laid on.
    Image,
}

impl Shape {
    /// Whether the shape is drawn as a fan.
    pub open spec fn is_fan(self) -> bool {
        self == Shape::Circle || self == (Shape::Rect { rounded: true })
    }

    /// Whether the shape is drawn as a quad.
    pub open spec fn is_quad(self) -> bool {
        self == Shape::Image || self == (Shape::Rect { rounded: false })
    }
}

/// The vertices of one node, before they are indexed.
pub enum Outline<V> {
    /// Nothing to draw.
    Blank,
    /// A centre followed by the vertices of a ring round it.
    Fan(Vec<V>),
    /// Four corners, numbered round the outline.
    Quad([V; 4]),
}

impl<V> Outline<V> {
    /// Number of ring vertices of a fan whose vertex list has length `len`. A list
    /// without a ring vertex, or with more vertices than 16-bit indices can address,
    /// has no triangles.
    pub open spec fn ring(len: nat) -> u16 {
        if 2 <= len <= 0x1_0000 {
            (len - 1) as u16
        } else {
            0
        }
    }

    /// The vertices of the outline.
    pub open spec fn vertices(self) -> Seq<V> {
        match self {
            Outline::Blank => seq![],
            Outline::Fan(v) => v@,
            Outline::Quad(c) => c@,
        }
    }

    /// The index list that makes triangles of the outline.
    pub open spec fn indices(self) -> Seq<u16> {
        match self {
            Outline::Blank => seq![],
            Outline::Fan(v) => fan(Self::ring(v@.len())),
            Outline::Quad(_) => quad(),
        }
    }

    /// The triangles of an outline address vertices of that outline only.
    pub proof fn indices_stay_inside(self)
        ensures
            forall|k: int|
                0 <= k < self.indices().len() ==> (#[trigger] self.indices()[k])
                    < self.vertices().len(),
    {
        match self {
            Outline::Blank => {},
            Outline::Fan(v) => {
                let n = Self::ring(v@.len());
                assert forall|k: int| 0 <= k < fan(n).len() implies (#[trigger] fan(n)[k])
                    < v@.len() by {
                    let t = k / 3;
                    assert(0 <= t < n);
                };
            },
            Outline::Quad(c) => {
                assert(c@.len() == 4);
            },
        }
    }
}

impl<V: Copy> Renders<V> {
    /// Writes the triangles of `outline` into slot `id`. A blank outline leaves the
    /// slot as it is, and so does an index that names no slot in use.
    pub fn draw(&mut self, id: usize, outline: Outline<V>)
        ensures
            final(self)@ == Self::with_outline(old(self)@, id as int, outline),
    {
        match outline {
            Outline::Blank => {},
            Outline::Fan(vertices) => {
                let len = vertices.len();
                let ring: u16 = if 2 <= len && len <= 0x1_0000 {
                    (len - 1) as u16
                } else {
                    0
                };
                let indices = fan_indices(ring);
                self.render(id, vertices, indices);
            },
            Outline::Quad(corners) => {
                let mut vertices: Vec<V> = Vec::new();
                vertices.push(corners[0]);
                vertices.push(corners[1]);
                vertices.push(corners[2]);
                vertices.push(corners[3]);
                assert(vertices@ =~= corners@);
                self.render(id, vertices, quad_indices());
            },
        }
    }
}

} // verus!
