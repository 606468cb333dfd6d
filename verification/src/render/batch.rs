//! Merging render slots into draw calls.
//!
//! The slots are read in index order. Slots that follow each other directly and are
//! drawn with the same texture go into one batch: their vertices are laid end to end,
//! and the indices of each slot are shifted by the number of vertices before it. A slot
//! that was given back ends the batch before it, and so does a slot whose shifted
//! indices would no longer fit into 16 bits. A batch asks for the most work that any of
//! its slots asks for.

use crate::object::DrawUpdate;
use crate::render::d2::{Renders, Slot, SlotView};
use vstd::prelude::*;

verus! {

/// One draw call: the geometry of a run of slots, the texture it is drawn with, and
/// what has to happen to its buffers on the GPU.
pub struct Batch<V> {
    pub vertices: Vec<V>,
    pub indices: Vec<u16>,
    pub image: Option<usize>,
    pub update: DrawUpdate,
}

impl<V> View for Batch<V> {
    type V = SlotView<V>;

    open spec fn view(&self) -> SlotView<V> {
        SlotView {
            vertices: self.vertices@,
            indices: self.indices@,
            image: self.image,
            update: self.update,
        }
    }
}

/// What is done with the buffers of a batch on the GPU.
#[derive(Clone, Copy, PartialEq, Eq, Structural, Debug)]
pub enum Buffers {
    /// New buffers are made, sized to the batch.
    Make,
    /// The buffers that are held are written again.
    Write,
    /// The buffers that are held are drawn as they are.
    Reuse,
}

/// What is done with the buffers of a batch that asks for `update` and has `vertices`
/// vertices and `indices` indices, where `held` gives the sizes of the buffers that
/// are held for the batch's place in the frame, if any are: new buffers are made where
/// the batch asks for them, where none are held, and where the batch has outgrown the
/// ones that are held.
pub open spec fn buffers_for(
    update: DrawUpdate,
    vertices: nat,
    indices: nat,
    held: Option<(usize, usize)>,
) -> Buffers {
    match held {
        None => Buffers::Make,
        Some((held_vertices, held_indices)) => if update == DrawUpdate::Create || vertices
            > held_vertices || indices > held_indices {
            Buffers::Make
        } else if update == DrawUpdate::Update {
            Buffers::Write
        } else {
            Buffers::Reuse
        },
    }
}

impl<V> Batch<V> {
    /// Decides what is done with the buffers of the batch, given the sizes of the
    /// buffers that are held for its place in the frame.
    pub fn buffers(&self, held: Option<(usize, usize)>) -> (r: Buffers)
        ensures
            r == buffers_for(self.update, self.vertices@.len(), self.indices@.len(), held),
    {
        match held {
            None => Buffers::Make,
            Some((held_vertices, held_indices)) => {
                let outgrown = self.vertices.len() > held_vertices || self.indices.len() > held_indices;
                match self.update {
                    DrawUpdate::Create => Buffers::Make,
                    DrawUpdate::Update => if outgrown {
                        Buffers::Make
                    } else {
                        Buffers::Write
                    },
                    DrawUpdate::Unchanged => if outgrown {
                        Buffers::Make
                    } else {
                        Buffers::Reuse
                    },
                }
            },
        }
    }
}

/// The buffers that are held on the GPU for one place in the frame, with their sizes.
/// `H` is the caller's handle of the buffers.
pub struct Held<H> {
    pub handle: H,
    /// Number of vertices that the vertex buffer has room for.
    pub vertices: usize,
    /// Number of indices that the index buffer has room for.
    pub indices: usize,
}

/// The buffers that are held on the GPU: entry `k` belongs to batch `k` of the frame.
pub struct Holdings<H> {
    pub list: Vec<Held<H>>,
}

impl<H> Holdings<H> {
    /// Nothing held.
    pub fn new() -> (r: Self)
        ensures
            r.list@.len() == 0,
    {
        Holdings { list: Vec::new() }
    }

    /// The sizes of the buffers that are held for batch `k`, if any are.
    pub fn sizes(&self, k: usize) -> (r: Option<(usize, usize)>)
        ensures
            r == if k < self.list@.len() {
                Some((self.list@[k as int].vertices, self.list@[k as int].indices))
            } else {
                None::<(usize, usize)>
            },
    {
        if k < self.list.len() {
            Some((self.list[k].vertices, self.list[k].indices))
        } else {
            None
        }
    }

    /// Holds new buffers for batch `k`. Where buffers were held for the batch, they are
    /// handed back, to be given up; where none were, the new ones become the last
    /// entry.
    pub fn put(&mut self, k: usize, handle: H, vertices: usize, indices: usize) -> (gone: Option<H>)
        ensures
            k < old(self).list@.len() ==> {
                &&& gone == Some(old(self).list@[k as int].handle)
                &&& final(self).list@ == old(self).list@.update(k as int, (Held { handle, vertices, indices }))
            },
            k >= old(self).list@.len() ==> {
                &&& gone is None
                &&& final(self).list@ == old(self).list@.push((Held { handle, vertices, indices }))
            },
    {
        let n = self.list.len();
        self.list.push(Held { handle, vertices, indices });
        if k < n {
            let before = self.list.swap_remove(k);
            assert(self.list@ =~= old(self).list@.update(k as int, Held { handle, vertices, indices }));
            Some(before.handle)
        } else {
            None
        }
    }

    /// Gives up the buffers of the places from `count` on, which a frame of `count`
    /// batches does not use, and hands them back in their order.
    pub fn trim(&mut self, count: usize) -> (gone: Vec<H>)
        ensures
            count >= old(self).list@.len() ==> gone@.len() == 0 && final(self).list@ == old(self).list@,
            count < old(self).list@.len() ==> {
                &&& final(self).list@ == old(self).list@.take(count as int)
                &&& gone@.len() == old(self).list@.len() - count
                &&& forall|j: int|
                    0 <= j < gone@.len() ==> (#[trigger] gone@[j]) == old(self).list@[count + j].handle
            },
    {
        let n = self.list.len();
        let mut turned: Vec<H> = Vec::new();
        while self.list.len() > count
            invariant
                n == old(self).list@.len(),
                self.list@.len() <= n,
                self.list@.len() >= count || self.list@.len() == n,
                self.list@ == old(self).list@.take(self.list@.len() as int),
                turned@.len() == n - self.list@.len(),
                forall|j: int|
                    0 <= j < turned@.len() ==> (#[trigger] turned@[j]) == old(self).list@[n - 1 - j].handle,
            decreases self.list@.len(),
        {
            let last = self.list.pop().unwrap();
            turned.push(last.handle);
            assert(self.list@ =~= old(self).list@.take(self.list@.len() as int));
        }
        let m = turned.len();
        let mut gone: Vec<H> = Vec::new();
        while turned.len() > 0
            invariant
                n == old(self).list@.len(),
                self.list@.len() <= n,
                self.list@.len() == if count < n {
                    count as int
                } else {
                    n as int
                },
                self.list@ == old(self).list@.take(self.list@.len() as int),
                m == n - self.list@.len(),
                turned@.len() <= m,
                gone@.len() == m - turned@.len(),
                forall|j: int|
                    0 <= j < turned@.len() ==> (#[trigger] turned@[j]) == old(self).list@[n - 1 - j].handle,
                forall|j: int|
                    0 <= j < gone@.len() ==> (#[trigger] gone@[j]) == old(self).list@[n - m + j].handle,
            decreases turned@.len(),
        {
            let handle = turned.pop().unwrap();
            gone.push(handle);
        }
        proof {
            if count >= n {
                assert(self.list@ =~= old(self).list@);
            }
        }
        gone
    }
}

/// The contents of a list of batches.
spec fn batch_views<V>(batches: Seq<Batch<V>>) -> Seq<SlotView<V>> {
    Seq::new(batches.len(), |i: int| batches[i]@)
}

/// `indices`, each raised by `base`.
pub open spec fn shifted(indices: Seq<u16>, base: nat) -> Seq<u16> {
    Seq::new(indices.len(), |k: int| (indices[k] + base) as u16)
}

/// Whether the indices of `slot` still fit into 16 bits behind the vertices of `run`.
pub open spec fn fits<V>(run: SlotView<V>, slot: SlotView<V>) -> bool {
    forall|k: int|
        0 <= k < slot.indices.len() ==> run.vertices.len() + (#[trigger] slot.indices[k])
            <= u16::MAX
}

/// Whether `slot` can go into the batch `run` that ends directly before it.
pub open spec fn joins<V>(run: SlotView<V>, slot: SlotView<V>) -> bool {
    run.image == slot.image && fits(run, slot)
}

/// The batch `run` with `slot` taken in at its end.
pub open spec fn absorb<V>(run: SlotView<V>, slot: SlotView<V>) -> SlotView<V> {
    SlotView {
        vertices: run.vertices + slot.vertices,
        indices: run.indices + shifted(slot.indices, run.vertices.len()),
        image: run.image,
        update: run.update.join(slot.update),
    }
}

/// The batches that a table is drawn with.
pub open spec fn plan<V>(table: Seq<Option<SlotView<V>>>) -> Seq<SlotView<V>>
    decreases table.len(),
{
    if table.len() == 0 {
        seq![]
    } else {
        let before = table.drop_last();
        let done = plan(before);
        match table.last() {
            None => done,
            Some(slot) => if before.len() > 0 && before.last() is Some && joins(done.last(), slot) {
                done.drop_last().push(absorb(done.last(), slot))
            } else {
                done.push(slot)
            },
        }
    }
}

/// The table after the batcher has read it: every slot in use is tagged `Unchanged`,
/// and nothing else differs.
pub open spec fn consumed<V>(table: Seq<Option<SlotView<V>>>) -> Seq<Option<SlotView<V>>> {
    Seq::new(
        table.len(),
        |i: int|
            match table[i] {
                Some(slot) => Some(SlotView { update: DrawUpdate::Unchanged, ..slot }),
                None => None,
            },
    )
}

/// A table that ends in a slot in use has at least one batch.
pub proof fn plan_ends_in_batch<V>(table: Seq<Option<SlotView<V>>>)
    requires
        table.len() > 0,
        table.last() is Some,
    ensures
        plan(table).len() > 0,
{
}

/// Two slots in use that follow each other directly and are drawn with the same texture
/// make one batch, as long as the second one's indices fit behind the first.
pub proof fn same_texture_merges<V>(a: SlotView<V>, b: SlotView<V>)
    requires
        a.image == b.image,
        fits(a, b),
    ensures
        plan(seq![Some(a), Some(b)]) == seq![absorb(a, b)],
{
    let table = seq![Some(a), Some(b)];
    let first = seq![Some(a)];
    assert(table.drop_last() =~= first);
    assert(first.drop_last() =~= Seq::<Option<SlotView<V>>>::empty());
    assert(plan(first.drop_last()) =~= Seq::<SlotView<V>>::empty());
    assert(plan(first) =~= seq![a]);
    assert(plan(table) =~= seq![absorb(a, b)]);
}

/// A slot with another texture between two slots keeps them apart: each of the three
/// is a batch of its own.
pub proof fn other_texture_splits<V>(a: SlotView<V>, c: SlotView<V>, b: SlotView<V>)
    requires
        c.image != a.image,
        c.image != b.image,
    ensures
        plan(seq![Some(a), Some(c), Some(b)]) == seq![a, c, b],
{
    let table = seq![Some(a), Some(c), Some(b)];
    let two = seq![Some(a), Some(c)];
    let first = seq![Some(a)];
    assert(table.drop_last() =~= two);
    assert(two.drop_last() =~= first);
    assert(first.drop_last() =~= Seq::<Option<SlotView<V>>>::empty());
    assert(plan(first.drop_last()) =~= Seq::<SlotView<V>>::empty());
    assert(plan(first) =~= seq![a]);
    assert(plan(two) =~= seq![a, c]);
    assert(plan(table) =~= seq![a, c, b]);
}

/// A slot that was given back ends the batch before it: the slots on its two sides are
/// batched as if each side were a table of its own.
pub proof fn gap_splits<V>(left: Seq<Option<SlotView<V>>>, right: Seq<Option<SlotView<V>>>)
    ensures
        plan(left.push(None) + right) == plan(left) + plan(right),
    decreases right.len(),
{
    let table = left.push(None) + right;
    if right.len() == 0 {
        assert(table =~= left.push(None));
        assert(table.drop_last() =~= left);
        assert(plan(left) + plan(right) =~= plan(left));
    } else {
        let shorter = right.drop_last();
        gap_splits(left, shorter);
        assert(table.drop_last() =~= left.push(None) + shorter);
        assert(table.last() == right.last());
        let done = plan(left) + plan(shorter);
        match right.last() {
            None => {},
            Some(slot) => {
                if shorter.len() > 0 && shorter.last() is Some {
                    plan_ends_in_batch(shorter);
                    assert(table.drop_last().last() == shorter.last());
                    assert(done.last() == plan(shorter).last());
                    if joins(done.last(), slot) {
                        assert(done.drop_last().push(absorb(done.last(), slot)) =~= plan(left)
                            + plan(shorter).drop_last().push(absorb(plan(shorter).last(), slot)));
                    } else {
                        assert(done.push(slot) =~= plan(left) + plan(shorter).push(slot));
                    }
                } else {
                    if shorter.len() == 0 {
                        assert(table.drop_last().last() == None::<SlotView<V>>);
                    } else {
                        assert(table.drop_last().last() == shorter.last());
                    }
                    assert(done.push(slot) =~= plan(left) + plan(shorter).push(slot));
                }
            },
        }
    }
}

/// The vertices of a list of batches, laid end to end.
pub open spec fn all_vertices<V>(batches: Seq<SlotView<V>>) -> Seq<V>
    decreases batches.len(),
{
    if batches.len() == 0 {
        seq![]
    } else {
        all_vertices(batches.drop_last()) + batches.last().vertices
    }
}

/// The vertices of the slots in use of a table, laid end to end.
pub open spec fn live_vertices<V>(table: Seq<Option<SlotView<V>>>) -> Seq<V>
    decreases table.len(),
{
    if table.len() == 0 {
        seq![]
    } else {
        match table.last() {
            Some(slot) => live_vertices(table.drop_last()) + slot.vertices,
            None => live_vertices(table.drop_last()),
        }
    }
}

/// Batching neither drops nor repeats nor reorders a vertex: the batches, laid end to
/// end, hold the vertices of the slots in use in the order of the table.
pub proof fn plan_keeps_vertices<V>(table: Seq<Option<SlotView<V>>>)
    ensures
        all_vertices(plan(table)) == live_vertices(table),
    decreases table.len(),
{
    if table.len() > 0 {
        let before = table.drop_last();
        plan_keeps_vertices(before);
        let done = plan(before);
        match table.last() {
            None => {},
            Some(slot) => {
                if before.len() > 0 && before.last() is Some && joins(done.last(), slot) {
                    plan_ends_in_batch(before);
                    let merged = done.drop_last().push(absorb(done.last(), slot));
                    assert(merged.drop_last() =~= done.drop_last());
                    assert(all_vertices(merged) =~= all_vertices(done.drop_last()) + (done.last().vertices
                        + slot.vertices));
                    assert(all_vertices(done) =~= all_vertices(done.drop_last()) + done.last().vertices);
                    assert(all_vertices(merged) =~= all_vertices(done) + slot.vertices);
                } else {
                    assert(done.push(slot).drop_last() =~= done);
                }
            },
        }
    }
}

/// Taking a slot into a batch keeps every triangle on its vertices: the triangles that
/// were in the batch are untouched, and each shifted index of the slot addresses the
/// vertex that the index addressed in the slot.
pub proof fn absorb_keeps_triangles<V>(run: SlotView<V>, slot: SlotView<V>)
    requires
        run.closed(),
        slot.closed(),
        fits(run, slot),
    ensures
        absorb(run, slot).closed(),
        forall|k: int|
            0 <= k < run.indices.len() ==> absorb(run, slot).vertices[(
            #[trigger] absorb(run, slot).indices[k]) as int] == run.vertices[run.indices[k] as int],
        forall|k: int|
            0 <= k < slot.indices.len() ==> absorb(run, slot).vertices[(
            #[trigger] absorb(run, slot).indices[run.indices.len() + k]) as int]
                == slot.vertices[slot.indices[k] as int],
{
    let merged = absorb(run, slot);
    assert forall|k: int| 0 <= k < merged.indices.len() implies (#[trigger] merged.indices[k])
        < merged.vertices.len() by {
        if k >= run.indices.len() {
            let j = k - run.indices.len();
            assert(merged.indices[k] == shifted(slot.indices, run.vertices.len())[j]);
            assert(slot.indices[j] < slot.vertices.len());
        } else {
            assert(merged.indices[k] == run.indices[k]);
        }
    };
    assert forall|k: int| 0 <= k < slot.indices.len() implies merged.vertices[(
    #[trigger] merged.indices[run.indices.len() + k]) as int] == slot.vertices[slot.indices[k] as int] by {
        assert(merged.indices[run.indices.len() + k] == shifted(slot.indices, run.vertices.len())[k]);
        assert(slot.indices[k] < slot.vertices.len());
    };
}

/// If every slot keeps its indices inside its own vertices, so does every batch.
pub proof fn plan_stays_closed<V>(table: Seq<Option<SlotView<V>>>)
    requires
        forall|i: int| 0 <= i < table.len() && table[i] is Some ==> (#[trigger] table[i])->0.closed(),
    ensures
        forall|b: int| 0 <= b < plan(table).len() ==> (#[trigger] plan(table)[b]).closed(),
    decreases table.len(),
{
    if table.len() > 0 {
        let before = table.drop_last();
        plan_stays_closed(before);
        let done = plan(before);
        match table.last() {
            None => {},
            Some(slot) => {
                assert(table[table.len() - 1] is Some);
                assert(slot.closed());
                if before.len() > 0 && before.last() is Some && joins(done.last(), slot) {
                    plan_ends_in_batch(before);
                    absorb_keeps_triangles(done.last(), slot);
                }
            },
        }
    }
}

/// Tells whether the indices of a slot fit behind `base` vertices.
fn fits_behind(base: usize, indices: &Vec<u16>) -> (r: bool)
    ensures
        r == forall|k: int| 0 <= k < indices@.len() ==> base + (#[trigger] indices@[k]) <= u16::MAX,
{
    if base > 0xFFFF {
        let empty = indices.len() == 0;
        proof {
            if !empty {
                assert(base + indices@[0] > u16::MAX);
            }
        }
        return empty;
    }
    let room: u16 = 0xFFFF - (base as u16);
    let mut k: usize = 0;
    while k < indices.len()
        invariant
            k <= indices@.len(),
            base <= 0xFFFF,
            room == 0xFFFF - base,
            forall|j: int| 0 <= j < k ==> base + (#[trigger] indices@[j]) <= u16::MAX,
        decreases indices@.len() - k,
    {
        if indices[k] > room {
            assert(base + indices@[k as int] > u16::MAX);
            return false;
        }
        k += 1;
    }
    true
}

/// Takes `slot` in at the end of `run`.
fn take_in<V: Copy>(run: &mut Batch<V>, slot: &Slot<V>)
    requires
        fits(old(run)@, slot@),
    ensures
        final(run)@ == absorb(old(run)@, slot@),
{
    let base = run.vertices.len();
    let mut k: usize = 0;
    while k < slot.indices.len()
        invariant
            k <= slot.indices@.len(),
            base == old(run).vertices@.len(),
            run.vertices@ == old(run).vertices@,
            run.image == old(run).image,
            run.update == old(run).update,
            fits(old(run)@, slot@),
            run.indices@ =~= old(run).indices@ + shifted(slot.indices@, base as nat).take(k as int),
        decreases slot.indices@.len() - k,
    {
        let index = slot.indices[k];
        assert(base + slot@.indices[k as int] <= u16::MAX);
        run.indices.push(index + (base as u16));
        k += 1;
    }
    assert(shifted(slot.indices@, base as nat).take(k as int) =~= shifted(
        slot.indices@,
        base as nat,
    ));
    let mut k: usize = 0;
    while k < slot.vertices.len()
        invariant
            k <= slot.vertices@.len(),
            run.indices@ == old(run).indices@ + shifted(slot.indices@, base as nat),
            run.image == old(run).image,
            run.update == old(run).update,
            run.vertices@ =~= old(run).vertices@ + slot.vertices@.take(k as int),
        decreases slot.vertices@.len() - k,
    {
        run.vertices.push(slot.vertices[k]);
        k += 1;
    }
    assert(slot.vertices@.take(k as int) =~= slot.vertices@);
    run.update = run.update.merge(slot.update);
}

/// Starts a batch with a copy of `slot`.
fn start_with<V: Copy>(slot: &Slot<V>) -> (run: Batch<V>)
    ensures
        run@ == slot@,
{
    let mut vertices: Vec<V> = Vec::new();
    let mut k: usize = 0;
    while k < slot.vertices.len()
        invariant
            k <= slot.vertices@.len(),
            vertices@ =~= slot.vertices@.take(k as int),
        decreases slot.vertices@.len() - k,
    {
        vertices.push(slot.vertices[k]);
        k += 1;
    }
    assert(slot.vertices@.take(k as int) =~= slot.vertices@);
    let mut indices: Vec<u16> = Vec::new();
    let mut k: usize = 0;
    while k < slot.indices.len()
        invariant
            k <= slot.indices@.len(),
            indices@ =~= slot.indices@.take(k as int),
        decreases slot.indices@.len() - k,
    {
        indices.push(slot.indices[k]);
        k += 1;
    }
    assert(slot.indices@.take(k as int) =~= slot.indices@);
    Batch { vertices, indices, image: slot.image, update: slot.update }
}

impl<V: Copy> Renders<V> {
    /// Reads the table into batches and takes every tag back to `Unchanged`: the work
    /// that the tags asked for is now asked for by the batches.
    pub fn batches(&mut self) -> (out: Vec<Batch<V>>)
        ensures
            out@.len() == plan(old(self)@).len(),
            forall|i: int| 0 <= i < out@.len() ==> (#[trigger] out@[i])@ == plan(old(self)@)[i],
            final(self)@ == consumed(old(self)@),
    {
        let mut out: Vec<Batch<V>> = Vec::new();
        let n = self.slots.len();
        let mut open = false;
        let mut i: usize = 0;
        assert(old(self)@.take(0) =~= Seq::<Option<SlotView<V>>>::empty());
        assert(batch_views(out@) =~= plan(old(self)@.take(0)));
        while i < n
            invariant
                i <= n,
                n == old(self)@.len(),
                self@.len() == n,
                batch_views(out@) == plan(old(self)@.take(i as int)),
                open == (i > 0 && old(self)@[i - 1] is Some),
                forall|j: int| 0 <= j < i ==> (#[trigger] self@[j]) == consumed(old(self)@)[j],
                forall|j: int| i <= j < n ==> (#[trigger] self@[j]) == old(self)@[j],
            decreases n - i,
        {
            let ghost before = old(self)@.take(i as int);
            let ghost upto = old(self)@.take(i + 1);
            assert(upto.drop_last() =~= before);
            assert(upto.last() == old(self)@[i as int]);
            assert(self@[i as int] == old(self)@[i as int]);
            let ghost table = self@;
            match &self.slots[i] {
                None => {
                    open = false;
                },
                Some(slot) => {
                    assert(old(self)@[i as int] == Some(slot@));
                    let mut joined = false;
                    if open {
                        proof {
                            assert(before.last() == old(self)@[i - 1]);
                            plan_ends_in_batch(before);
                        }
                        let last = out.len() - 1;
                        assert(out@[last as int]@ == plan(before).last());
                        if out[last].image == slot.image && fits_behind(
                            out[last].vertices.len(),
                            &slot.indices,
                        ) {
                            joined = true;
                        }
                    }
                    if joined {
                        let mut run = out.pop().unwrap();
                        take_in(&mut run, slot);
                        out.push(run);
                        assert(batch_views(out@) =~= plan(before).drop_last().push(
                            absorb(plan(before).last(), slot@),
                        ));
                    } else {
                        let run = start_with(slot);
                        out.push(run);
                        assert(batch_views(out@) =~= plan(before).push(slot@));
                    }
                    open = true;
                },
            }
            if let Some(slot) = &mut self.slots[i] {
                slot.update = DrawUpdate::Unchanged;
            }
            assert(self@[i as int] == consumed(old(self)@)[i as int]);
            assert forall|j: int| 0 <= j < i + 1 implies (#[trigger] self@[j]) == consumed(
                old(self)@,
            )[j] by {
                if j < i {
                    assert(self@[j] == table[j]);
                }
            };
            assert forall|j: int| i + 1 <= j < n implies (#[trigger] self@[j]) == old(self)@[j] by {
                assert(self@[j] == table[j]);
            };
            i += 1;
        }
        assert(old(self)@.take(n as int) =~= old(self)@);
        assert(self@ =~= consumed(old(self)@));
        assert forall|i: int| 0 <= i < out@.len() implies (#[trigger] out@[i])@ == plan(old(self)@)[i] by {
            assert(batch_views(out@)[i] == out@[i]@);
        };
        out
    }
}

} // verus!
