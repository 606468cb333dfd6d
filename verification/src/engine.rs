//! The engine: the root of the tree, the render slot table, and the settings of the
//! window.

use crate::object::d2::{released, Body, CreateNode2d, Module, Node2d};
use crate::object::{Key, Touch};
use crate::render::batch::{consumed, plan, Batch};
use crate::render::d2::{Renders, SlotView};
use crate::render::quad::{samples, window_conf};
use vstd::prelude::*;

verus! {

/// The state of a running scene. One value of this type is handed to whatever updates,
/// draws or dispatches.
pub struct Engine<B: Body> {
    /// The root of the tree, once one is attached.
    pub node2d: Option<Node2d<B>>,
    pub renders: Renders<B::Vertex>,
    pub resizable: bool,
    pub fullscreen: bool,
    pub high_dpi: bool,
    /// Frames drawn in the last full second.
    pub fps: u16,
    /// Frames drawn since the last full second.
    pub fps_buffer: u16,
}

impl<B: Body> Engine<B> {
    /// An engine without a scene: a resizable window, not fullscreen, scaled for dense
    /// displays.
    pub fn new() -> (r: Self)
        ensures
            r.node2d is None,
            r.renders@.len() == 0,
            r.resizable,
            !r.fullscreen,
            r.high_dpi,
            r.fps == 60,
            r.fps_buffer == 0,
    {
        Engine {
            node2d: None,
            renders: Renders::new(),
            resizable: true,
            fullscreen: false,
            high_dpi: true,
            fps: 60,
            fps_buffer: 0,
        }
    }

    /// The table without the slots of the tree that is attached so far.
    pub open spec fn cleared(self) -> Seq<Option<SlotView<B::Vertex>>> {
        match self.node2d {
            Some(root) => released(self.renders@, root@.ids()),
            None => self.renders@,
        }
    }

    /// Attaches `node` as the root of the tree and makes the tree ready for the first
    /// frame. A tree that was attached before is dropped, and its slots are given back;
    /// nothing else is taken back from the table.
    pub fn node2d<M: Module<B>>(self, node: CreateNode2d<B>, scripts: &M, stage: &mut B::Stage) -> (r: Self)
        ensures
            r.node2d is Some,
            Renders::grown(self.cleared(), r.renders@),
            r.node2d->0@.housed(r.renders@),
            r.node2d->0@.within(usize::MAX as int) ==> r.node2d->0@.housed_all(r.renders@),
            !node.node2d@.scripted() && node.node2d@.within(usize::MAX as int) ==> r.node2d->0@.housed_all(
                r.renders@,
            ),
            !node.node2d@.scripted() ==> node.node2d@.refreshed_to(r.node2d->0@),
            !node.node2d@.scripted() && node.node2d@.unshared() && node.node2d@.below(
                self.renders@.len() as int,
            ) ==> r.node2d->0@.unshared() && r.node2d->0@.below(r.renders@.len() as int),
            r.resizable == self.resizable,
            r.fullscreen == self.fullscreen,
            r.high_dpi == self.high_dpi,
            r.fps == self.fps,
            r.fps_buffer == self.fps_buffer,
    {
        let mut r = self;
        if let Some(gone) = &r.node2d {
            gone.release(&mut r.renders);
        }
        let mut root = node.get_node();
        root.start(scripts, stage, &mut r.renders, usize::MAX);
        r.node2d = Some(root);
        r
    }

    /// Sets whether the user can resize the window.
    pub fn resizable(self, sel: bool) -> (r: Self)
        ensures
            r == (Engine { resizable: sel, ..self }),
    {
        Engine { resizable: sel, ..self }
    }

    /// Sets whether the window covers the screen.
    pub fn fullscreen(self, sel: bool) -> (r: Self)
        ensures
            r == (Engine { fullscreen: sel, ..self }),
    {
        Engine { fullscreen: sel, ..self }
    }

    /// Sets whether the window is scaled for dense displays.
    pub fn high_dpi(self, sel: bool) -> (r: Self)
        ensures
            r == (Engine { high_dpi: sel, ..self }),
    {
        Engine { high_dpi: sel, ..self }
    }

    /// The configuration that the window is opened with: the title `name`, a size of
    /// `width` by `height` pixels, the engine's switches, and the sample count of the
    /// kind of device.
    pub fn start(&self, name: &str, width: i32, height: i32, device: u8) -> (c: ::miniquad::conf::Conf)
        ensures
            c.window_title@ == name@,
            c.window_width == width,
            c.window_height == height,
            c.high_dpi == self.high_dpi,
            c.fullscreen == self.fullscreen,
            c.window_resizable == self.resizable,
            c.sample_count == samples(device),
    {
        window_conf(name, width, height, self.high_dpi, self.fullscreen, self.resizable, device)
    }

    /// Updates the tree for the frame. The table only grows, by empty slots, and the
    /// root has a render slot that is in use afterwards; so has every node of a tree
    /// without behaviours, unless the tree is deeper than a walk can go. Without a tree
    /// nothing changes.
    pub fn update<M: Module<B>>(&mut self, scripts: &M, stage: &mut B::Stage)
        ensures
            Renders::grown(old(self).renders@, final(self).renders@),
            final(self).node2d is Some == old(self).node2d is Some,
            old(self).node2d is None ==> final(self).renders@ == old(self).renders@ && *final(stage)
                == *old(stage),
            old(self).node2d is Some ==> final(self).node2d->0@.housed(final(self).renders@),
            old(self).node2d is Some && final(self).node2d->0@.within(usize::MAX as int) ==> {
                final(self).node2d->0@.housed_all(final(self).renders@)
            },
            old(self).node2d is Some && !old(self).node2d->0@.scripted() ==> {
                &&& old(self).node2d->0@.refreshed_to(final(self).node2d->0@)
                &&& old(self).node2d->0@.unshared() && old(self).node2d->0@.below(
                    old(self).renders@.len() as int,
                ) ==> final(self).node2d->0@.unshared() && final(self).node2d->0@.below(
                    final(self).renders@.len() as int,
                )
            },
            old(self).node2d is Some && !old(self).node2d->0@.scripted() && old(self).node2d->0@.within(
                usize::MAX as int,
            ) ==> final(self).node2d->0@.housed_all(final(self).renders@),
            final(self).resizable == old(self).resizable,
            final(self).fullscreen == old(self).fullscreen,
            final(self).high_dpi == old(self).high_dpi,
            final(self).fps == old(self).fps,
            final(self).fps_buffer == old(self).fps_buffer,
    {
        if let Some(node) = &mut self.node2d {
            node.update(scripts, stage, &mut self.renders, usize::MAX);
        }
    }

    /// Counts the frame, and draws the tree into the table, starting from the opacity
    /// `tint`.
    ///
    /// `second_over` says that a full second has passed since the count was last
    /// taken: then the count becomes the frame rate, and counting starts again.
    ///
    /// No slot is added or given back and no tag in the table is lowered, and a tree
    /// that a draw finds nothing to do for leaves the table as it is.
    pub fn draw(&mut self, tint: &B::Tint, second_over: bool)
        ensures
            final(self).renders@.len() == old(self).renders@.len(),
            Renders::kept(old(self).renders@, final(self).renders@),
            old(self).node2d is None ==> final(self).renders@ == old(self).renders@,
            old(self).node2d is Some ==> final(self).node2d is Some && final(self).node2d->0@.settled(),
            old(self).node2d is Some && old(self).node2d->0@.settled() ==> {
                &&& final(self).renders@ == old(self).renders@
                &&& final(self).node2d->0@ == old(self).node2d->0@
            },
            final(self).fps_buffer == if second_over {
                0
            } else {
                Self::counted(old(self).fps_buffer)
            },
            final(self).fps == if second_over {
                Self::counted(old(self).fps_buffer)
            } else {
                old(self).fps
            },
            final(self).resizable == old(self).resizable,
            final(self).fullscreen == old(self).fullscreen,
            final(self).high_dpi == old(self).high_dpi,
    {
        self.fps_buffer = if self.fps_buffer < u16::MAX {
            self.fps_buffer + 1
        } else {
            u16::MAX
        };
        if second_over {
            self.fps = self.fps_buffer;
            self.fps_buffer = 0;
        }
        if let Some(node) = &mut self.node2d {
            node.draw(&mut self.renders, tint);
        }
    }

    /// A frame count with one more frame. The count stops at the largest number it can
    /// hold.
    pub open spec fn counted(frames: u16) -> u16 {
        if frames < u16::MAX {
            (frames + 1) as u16
        } else {
            u16::MAX
        }
    }

    /// Reads the table into the draw calls of the frame, and takes every tag back.
    pub fn batches(&mut self) -> (out: Vec<Batch<B::Vertex>>)
        ensures
            out@.len() == plan(old(self).renders@).len(),
            forall|i: int|
                0 <= i < out@.len() ==> (#[trigger] out@[i])@ == plan(old(self).renders@)[i],
            final(self).renders@ == consumed(old(self).renders@),
            final(self).node2d == old(self).node2d,
            final(self).resizable == old(self).resizable,
            final(self).fullscreen == old(self).fullscreen,
            final(self).high_dpi == old(self).high_dpi,
            final(self).fps == old(self).fps,
            final(self).fps_buffer == old(self).fps_buffer,
    {
        self.renders.batches()
    }

    /// Hands a keyboard event to every behaviour in the tree. A tree without behaviours
    /// stays as it is.
    pub fn key<M: Module<B>>(
        &mut self,
        scripts: &M,
        stage: &mut B::Stage,
        key: &Key,
        keymod: ::miniquad::KeyMods,
        touch: Touch,
    )
        ensures
            old(self).node2d is Some == final(self).node2d is Some,
            old(self).node2d is None ==> *final(stage) == *old(stage),
            old(self).node2d is Some && !old(self).node2d->0@.scripted() ==> {
                &&& final(self).node2d->0@ == old(self).node2d->0@
                &&& *final(stage) == *old(stage)
            },
            final(self).renders == old(self).renders,
            final(self).resizable == old(self).resizable,
            final(self).fullscreen == old(self).fullscreen,
            final(self).high_dpi == old(self).high_dpi,
            final(self).fps == old(self).fps,
            final(self).fps_buffer == old(self).fps_buffer,
    {
        if let Some(node) = &mut self.node2d {
            node.key(scripts, stage, key, keymod, touch, usize::MAX);
        }
    }

    /// Hands a pointer event to the tree. Says whether the event is still live after
    /// that, that is, whether no node took it for itself.
    ///
    /// A tree in which no node can take the event stays as it is.
    pub fn touch<M: Module<B>>(
        &mut self,
        scripts: &M,
        stage: &mut B::Stage,
        id: u64,
        touch: Touch,
        pos: &B::Point,
    ) -> (live: bool)
        ensures
            old(self).node2d is None ==> live && final(self).node2d is None && *final(stage) == *old(
                stage,
            ),
            old(self).node2d is Some ==> final(self).node2d is Some,
            old(self).node2d is Some && old(self).node2d->0@.deaf(id, touch) ==> {
                &&& live
                &&& final(self).node2d->0@ == old(self).node2d->0@
                &&& *final(stage) == *old(stage)
            },
            final(self).renders == old(self).renders,
            final(self).resizable == old(self).resizable,
            final(self).fullscreen == old(self).fullscreen,
            final(self).high_dpi == old(self).high_dpi,
            final(self).fps == old(self).fps,
            final(self).fps_buffer == old(self).fps_buffer,
    {
        match &mut self.node2d {
            Some(node) => node.touch(scripts, stage, id, touch, pos),
            None => true,
        }
    }
}

} // verus!
