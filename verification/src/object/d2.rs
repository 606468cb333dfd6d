//! The node tree.
//!
//! A node owns its children. What a node looks like and where it sits is a value of
//! the caller's type, the node's body; the tree asks the body for everything that
//! takes arithmetic on coordinates, through [`Body`].

use crate::object::{Anchor, DrawUpdate, Keep, Key, Touch};
use crate::render::d2::{fan, quad, Outline, Renders, Shape, SlotView, SEGMENTS};
use vstd::prelude::*;
use vstd::string::StringExecFns;

verus! {

/// The geometry of a node: shape, transform and colour, with whatever the body caches
/// of them. Nothing is assumed of an implementation: what the tree guarantees, it
/// guarantees for every body.
pub trait Body: Sized {
    /// What positions on the screen are measured against: the camera and the visible
    /// half-extent of the canvas.
    type Stage;

    /// A pointer position on the canvas.
    type Point;

    /// The opacity that a node inherits from its ancestors.
    type Tint;

    /// A vertex as the GPU reads it.
    type Vertex: Copy;

    /// Resolves the position on the canvas from the node's own position and `anchor`.
    /// Says whether the resolved position differs from the one resolved last.
    fn place(&mut self, anchor: Anchor, stage: &Self::Stage) -> bool;

    /// Takes over, as the anchor handed down by the parent, the point of `parent` that
    /// its children are placed from.
    fn follow(&mut self, parent: &Self);

    /// Compares what the triangles depend on besides the position (shape, rotation,
    /// scale and pivot) with what it was at the last call, and brings what is cached of
    /// it up to date. Says whether anything differed.
    fn reshape(&mut self) -> bool;

    /// What the shape is made of.
    fn shape(&self) -> Shape;

    /// The texture that the shape is drawn with, if it has one.
    fn image(&self) -> Option<usize>;

    /// The opacity that the node hands on to its children.
    fn tint(&self, inherited: &Self::Tint) -> Self::Tint;

    /// The vertex in the middle of a fan: the resolved position, in the node's colour at
    /// opacity `tint`.
    fn hub(&self, tint: &Self::Tint) -> Self::Vertex;

    /// Ring vertex `step` of a fan, which lies `step` parts of [`SEGMENTS`] of a full
    /// turn round the shape.
    fn rim(&self, step: u16, tint: &Self::Tint) -> Self::Vertex;

    /// Corner `k` of a quad: 0 is the upper left one, and the others follow round the
    /// outline, the upper right one first.
    fn corner(&self, k: u8, tint: &Self::Tint) -> Self::Vertex;

    /// Whether `point` lies inside the shape.
    fn contains(&self, point: &Self::Point) -> bool;
}

/// The behaviours that nodes can have attached. A node names its behaviour by an index,
/// `script`; an implementation decides what the index stands for. The hooks are free to
/// change the node they are handed in any way, its children included.
pub trait Module<B: Body> {
    /// Called once, before the first frame, parents before children.
    fn start(&self, script: usize, obj: &mut Node2d<B>, stage: &mut B::Stage) {
    }

    /// Called once in every frame, parents before children.
    fn update(&self, script: usize, obj: &mut Node2d<B>, stage: &mut B::Stage) {
    }

    /// Called with every keyboard event, parents before children.
    fn key(
        &self,
        script: usize,
        obj: &mut Node2d<B>,
        stage: &mut B::Stage,
        key: &Key,
        keymod: ::miniquad::KeyMods,
        touch: Touch,
    ) {
    }

    /// Called with a pointer event that the node takes. Says whether the event stays
    /// live, that is, whether it goes on to the nodes that lie further back. A behaviour
    /// that does not write this hook leaves every event live.
    fn touch(
        &self,
        script: usize,
        obj: &mut Node2d<B>,
        stage: &mut B::Stage,
        id: u64,
        touch: Touch,
        pos: &B::Point,
    ) -> (live: bool) {
        true
    }
}

/// A node of the scene graph.
pub struct Node2d<B> {
    /// Siblings are looked up by name; the first one with the name is found.
    pub name: String,
    pub body: B,
    pub keep: Keep,
    pub visible: bool,
    /// The children. Those that enter the tree together are drawn in this order, later
    /// ones on top.
    pub node: Vec<Node2d<B>>,
    /// The behaviour attached to the node: an index that [`Module`] understands.
    pub script: Option<usize>,
    /// The pointer that pressed on the node and has not been released yet.
    pub touch_id: Option<u64>,
    /// The node's render slot, once the node has entered the tree.
    pub render_id: Option<usize>,
    /// What has to happen to the slot at the next draw.
    pub draw_update: DrawUpdate,
    /// Whether the node was visible when it was drawn last.
    pub shown: bool,
    /// What the node's behaviour keeps with the node: values as bytes, by key. Of two
    /// entries with the same key the first one counts.
    pub hash: Vec<(String, Vec<u8>)>,
}

/// The mathematical content of a [`Node2d`].
pub ghost struct NodeView<B> {
    pub name: Seq<char>,
    pub body: B,
    pub keep: Keep,
    pub visible: bool,
    pub node: Seq<NodeView<B>>,
    pub script: Option<usize>,
    pub touch_id: Option<u64>,
    pub render_id: Option<usize>,
    pub draw_update: DrawUpdate,
    pub shown: bool,
    pub hash: Seq<(Seq<char>, Seq<u8>)>,
}

/// The content of the entries that a behaviour keeps with a node.
pub open spec fn hash_view(hash: Vec<(String, Vec<u8>)>) -> Seq<(Seq<char>, Seq<u8>)> {
    Seq::new(hash@.len(), |i: int| (hash@[i].0@, hash@[i].1@))
}

impl<B> View for Node2d<B> {
    type V = NodeView<B>;

    open spec fn view(&self) -> NodeView<B> {
        self.content()
    }
}

impl<B> Node2d<B> {
    /// The content of the node: its fields, and its children's content in their order.
    pub open spec fn content(&self) -> NodeView<B>
        decreases self,
    {
        NodeView {
            name: self.name@,
            body: self.body,
            keep: self.keep,
            visible: self.visible,
            node: Seq::new(
                self.node@.len(),
                |i: int|
                    if 0 <= i < self.node@.len() {
                        self.node@[i].content()
                    } else {
                        arbitrary()
                    },
            ),
            script: self.script,
            touch_id: self.touch_id,
            render_id: self.render_id,
            draw_update: self.draw_update,
            shown: self.shown,
            hash: hash_view(self.hash),
        }
    }
}

/// The slots of `table` that `owned` names, emptied and tagged for an update; the
/// others as they are.
pub open spec fn wipe<V>(table: Seq<Option<SlotView<V>>>, owned: Set<int>) -> Seq<Option<SlotView<V>>> {
    Seq::new(
        table.len(),
        |i: int|
            match table[i] {
                Some(slot) => if owned.contains(i) {
                    Some(
                        SlotView {
                            vertices: seq![],
                            indices: seq![],
                            image: slot.image,
                            update: slot.update.join(DrawUpdate::Update),
                        },
                    )
                } else {
                    Some(slot)
                },
                None => None,
            },
    )
}

impl<B> NodeView<B> {
    /// Whether slot `id` is this node's own.
    pub open spec fn has_slot(self, id: int) -> bool {
        self.render_id matches Some(own) && own == id
    }

    /// Whether slot `id` belongs to this node or to a node below it.
    pub open spec fn owns(self, id: int) -> bool
        decreases self,
    {
        self.has_slot(id) || exists|k: int|
            0 <= k < self.node.len() && (#[trigger] self.node[k]).owns(id)
    }

    /// Whether slot `id` belongs to this node or to a node below one of its first `n`
    /// children.
    pub open spec fn owns_upto(self, n: int, id: int) -> bool {
        self.has_slot(id) || exists|k: int|
            0 <= k < n && k < self.node.len() && (#[trigger] self.node[k]).owns(id)
    }

    /// The slots of this node and of the nodes below it.
    pub open spec fn ids(self) -> Set<int> {
        Set::new(|id: int| self.owns(id))
    }

    /// The slots of this node and of the nodes below its first `n` children.
    pub open spec fn ids_upto(self, n: int) -> Set<int> {
        Set::new(|id: int| self.owns_upto(n, id))
    }

    /// Whether the node's own slot is in use in `table`.
    pub open spec fn housed<V>(self, table: Seq<Option<SlotView<V>>>) -> bool {
        self.render_id matches Some(own) && Renders::live(table, own as int)
    }

    /// Whether this node and every node below it has a slot that is in use in `table`.
    pub open spec fn housed_all<V>(self, table: Seq<Option<SlotView<V>>>) -> bool
        decreases self,
    {
        &&& self.housed(table)
        &&& forall|k: int| 0 <= k < self.node.len() ==> (#[trigger] self.node[k]).housed_all(table)
    }

    /// Whether this node or a node below it has a behaviour attached.
    pub open spec fn scripted(self) -> bool
        decreases self,
    {
        self.script is Some || exists|k: int|
            0 <= k < self.node.len() && (#[trigger] self.node[k]).scripted()
    }

    /// Whether a walk that goes `depth` levels down from this node reaches every node.
    pub open spec fn within(self, depth: int) -> bool
        decreases self,
    {
        self.node.len() == 0 || (depth > 0 && forall|k: int|
            0 <= k < self.node.len() ==> (#[trigger] self.node[k]).within(depth - 1))
    }

    /// Whether pointer `id` is down on this node or on a node below it.
    pub open spec fn holds(self, id: u64) -> bool
        decreases self,
    {
        (self.script is Some && self.touch_id == Some(id)) || exists|k: int|
            0 <= k < self.node.len() && (#[trigger] self.node[k]).holds(id)
    }

    /// Whether nothing in this subtree can take the event: a press needs a node with a
    /// behaviour, a move or a release the node that the pointer is down on.
    pub open spec fn deaf(self, id: u64, touch: Touch) -> bool {
        if touch == Touch::Press {
            !self.scripted()
        } else {
            !self.holds(id)
        }
    }

    /// Whether a node with a behaviour takes the event, given whether the pointer lies
    /// inside its shape. A press is taken where it hits; a move and a release are taken
    /// by the node that the pointer went down on.
    pub open spec fn takes(self, id: u64, touch: Touch, hit: bool) -> bool {
        match touch {
            Touch::Press => hit,
            Touch::Relese => self.touch_id == Some(id),
            Touch::Move => self.touch_id == Some(id),
        }
    }

    /// The pointer that is down on the node after the event.
    pub open spec fn owner_after(self, id: u64, touch: Touch, hit: bool) -> Option<u64> {
        match touch {
            Touch::Press => if hit {
                Some(id)
            } else {
                self.touch_id
            },
            Touch::Relese => if self.touch_id == Some(id) {
                None
            } else {
                self.touch_id
            },
            Touch::Move => self.touch_id,
        }
    }

    /// Whether entry `k` is the one that counts for `key`: the first one with the key.
    pub open spec fn kept_at(self, key: Seq<char>, k: int) -> bool {
        &&& 0 <= k < self.hash.len()
        &&& self.hash[k].0 == key
        &&& forall|j: int| 0 <= j < k ==> (#[trigger] self.hash[j]).0 != key
    }

    /// Whether nothing is kept under `key`.
    pub open spec fn keeps_nothing(self, key: Seq<char>) -> bool {
        forall|j: int| 0 <= j < self.hash.len() ==> (#[trigger] self.hash[j]).0 != key
    }

    /// Whether child `k` is the first child called `name`.
    pub open spec fn named_at(self, name: Seq<char>, k: int) -> bool {
        &&& 0 <= k < self.node.len()
        &&& self.node[k].name == name
        &&& forall|j: int| 0 <= j < k ==> (#[trigger] self.node[j]).name != name
    }

    /// Whether no child is called `name`.
    pub open spec fn unnamed(self, name: Seq<char>) -> bool {
        forall|j: int| 0 <= j < self.node.len() ==> (#[trigger] self.node[j]).name != name
    }

    /// Whether a draw would find nothing to do: no node that a draw reaches is tagged,
    /// and none has changed its visibility since it was drawn last. What lies below an
    /// invisible node is not reached.
    pub open spec fn settled(self) -> bool
        decreases self,
    {
        &&& self.visible == self.shown
        &&& self.visible ==> self.draw_update == DrawUpdate::Unchanged
        &&& self.visible ==> forall|k: int|
            0 <= k < self.node.len() ==> (#[trigger] self.node[k]).settled()
    }

    /// The node with all of its subtree tagged for an update at least.
    pub open spec fn dimmed(self) -> NodeView<B>
        decreases self,
    {
        NodeView {
            draw_update: self.draw_update.join(DrawUpdate::Update),
            node: Seq::new(
                self.node.len(),
                |k: int|
                    if 0 <= k < self.node.len() {
                        self.node[k].dimmed()
                    } else {
                        arbitrary()
                    },
            ),
            ..self
        }
    }

    /// The node without what drawing keeps of it: the tags and the visibility drawn
    /// last, in its whole subtree.
    pub open spec fn skeleton(self) -> NodeView<B>
        decreases self,
    {
        NodeView {
            draw_update: DrawUpdate::Unchanged,
            shown: false,
            node: Seq::new(
                self.node.len(),
                |k: int|
                    if 0 <= k < self.node.len() {
                        self.node[k].skeleton()
                    } else {
                        arbitrary()
                    },
            ),
            ..self
        }
    }

    /// The table after this node's subtree was hidden.
    pub open spec fn wiped<V>(self, table: Seq<Option<SlotView<V>>>) -> Seq<Option<SlotView<V>>> {
        wipe(table, self.ids())
    }

    /// A node that has its slots keeps them for as long as nothing is taken back from
    /// the table.
    pub proof fn housed_persists<V>(
        self,
        before: Seq<Option<SlotView<V>>>,
        after: Seq<Option<SlotView<V>>>,
    )
        requires
            self.housed_all(before),
            Renders::kept(before, after),
        ensures
            self.housed_all(after),
        decreases self,
    {
        let own = self.render_id->0 as int;
        let _ = before[own];
        assert forall|k: int| 0 <= k < self.node.len() implies (#[trigger] self.node[k]).housed_all(
            after,
        ) by {
            self.node[k].housed_persists(before, after);
        };
    }

    /// Whether the tags of the nodes that a draw reaches have arrived in `table`: the
    /// slot of every such node, if it is in use, is tagged at least as the node is.
    pub open spec fn handed_over<V>(self, table: Seq<Option<SlotView<V>>>) -> bool
        decreases self,
    {
        self.visible ==> {
            &&& self.housed(table) ==> table[self.render_id->0 as int]->0.update.rank()
                >= self.draw_update.rank()
            &&& forall|k: int|
                0 <= k < self.node.len() ==> (#[trigger] self.node[k]).handed_over(table)
        }
    }

    /// Tags that have arrived in the table stay there for as long as nothing is taken
    /// back from it.
    pub proof fn handed_over_persists<V>(
        self,
        before: Seq<Option<SlotView<V>>>,
        after: Seq<Option<SlotView<V>>>,
    )
        requires
            self.handed_over(before),
            Renders::kept(before, after),
            before.len() == after.len(),
        ensures
            self.handed_over(after),
        decreases self,
    {
        if self.visible {
            if self.housed(after) {
                let own = self.render_id->0 as int;
                let _ = before[own];
            }
            assert forall|k: int| 0 <= k < self.node.len() implies (#[trigger] self.node[k]).handed_over(
                after,
            ) by {
                self.node[k].handed_over_persists(before, after);
            };
        }
    }

    /// Whether `after` is what an update or a start that calls no behaviour can make of
    /// this node: of a node, and of every node below it, only body, slot and tag have
    /// changed; no tag ranks lower than it did; and a node that has another slot than
    /// before is tagged `Create`.
    pub open spec fn refreshed_to(self, after: NodeView<B>) -> bool
        decreases self,
    {
        &&& after.name == self.name
        &&& after.keep == self.keep
        &&& after.visible == self.visible
        &&& after.script == self.script
        &&& after.touch_id == self.touch_id
        &&& after.shown == self.shown
        &&& after.hash == self.hash
        &&& after.draw_update.rank() >= self.draw_update.rank()
        &&& after.render_id == self.render_id || after.draw_update == DrawUpdate::Create
        &&& after.node.len() == self.node.len()
        &&& forall|k: int|
            0 <= k < self.node.len() ==> (#[trigger] self.node[k]).refreshed_to(after.node[k])
    }

    /// A node that was not reached is what it was.
    pub proof fn refreshed_to_itself(self)
        ensures
            self.refreshed_to(self),
        decreases self,
    {
        assert forall|k: int| 0 <= k < self.node.len() implies (#[trigger] self.node[k]).refreshed_to(
            self.node[k],
        ) by {
            self.node[k].refreshed_to_itself();
        };
    }

    /// Whether every slot that is named in this subtree lies below `n`.
    pub open spec fn below(self, n: int) -> bool
        decreases self,
    {
        &&& self.render_id matches Some(own) ==> own < n
        &&& forall|k: int| 0 <= k < self.node.len() ==> (#[trigger] self.node[k]).below(n)
    }

    /// Whether no slot is named by two nodes of this subtree.
    pub open spec fn unshared(self) -> bool
        decreases self,
    {
        &&& forall|k: int|
            0 <= k < self.node.len() && self.render_id is Some ==> !(#[trigger] self.node[k]).owns(
                self.render_id->0 as int,
            )
        &&& forall|j: int, k: int, id: int|
            0 <= j < k < self.node.len() && (#[trigger] self.node[j].owns(id)) ==> !(
            #[trigger] self.node[k].owns(id))
        &&& forall|k: int| 0 <= k < self.node.len() ==> (#[trigger] self.node[k]).unshared()
    }

    /// Whether the children of `last` hold the slots that the children of this node
    /// held, or slots from `low` up to `high`, and share none, neither among themselves
    /// nor each within itself.
    pub open spec fn seats_children(self, last: NodeView<B>, low: int, high: int) -> bool {
        &&& last.node.len() == self.node.len()
        &&& forall|j: int, id: int|
            0 <= j < last.node.len() && (#[trigger] last.node[j].owns(id)) ==> self.node[j].owns(id)
                || low <= id < high
        &&& forall|j: int| 0 <= j < last.node.len() ==> (#[trigger] last.node[j]).unshared()
        &&& forall|j: int, k: int, id: int|
            0 <= j < k < last.node.len() && (#[trigger] last.node[j].owns(id)) ==> !(
            #[trigger] last.node[k].owns(id))
    }

    /// Children that were not reached are seated as they were.
    pub proof fn seats_own_children(self, last: NodeView<B>, low: int)
        requires
            self.unshared(),
            last.node == self.node,
        ensures
            self.seats_children(last, low, low),
    {
    }

    /// A child that was walked takes its seat among the others: where it holds the
    /// slots it held, or slots from `mid` up to `high`, which no other child holds, the
    /// children still share none.
    pub proof fn seats_one_more(
        self,
        prev: NodeView<B>,
        now: NodeView<B>,
        i: int,
        len0: int,
        low: int,
        mid: int,
        high: int,
    )
        requires
            self.unshared(),
            self.below(len0),
            len0 <= low <= mid <= high,
            self.seats_children(prev, low, mid),
            0 <= i < prev.node.len(),
            now.node.len() == prev.node.len(),
            forall|j: int| 0 <= j < now.node.len() && j != i ==> (#[trigger] now.node[j]) == prev.node[j],
            now.node[i].unshared(),
            forall|id: int| (#[trigger] now.node[i].owns(id)) ==> self.node[i].owns(id) || mid <= id < high,
        ensures
            self.seats_children(now, low, high),
    {
        assert forall|j: int, id: int| 0 <= j < self.node.len() && self.node[j].owns(id) implies id
            < len0 by {
            if id >= len0 {
                self.node[j].new_slot_is_unowned(len0, id);
            }
        };
        assert forall|j: int, id: int| 0 <= j < now.node.len() && (#[trigger] now.node[j].owns(id)) implies self.node[j].owns(
            id,
        ) || low <= id < high by {
            if j != i {
                assert(prev.node[j].owns(id));
            }
        };
        assert forall|j: int| 0 <= j < now.node.len() implies (#[trigger] now.node[j]).unshared() by {
            if j != i {
                assert(prev.node[j].unshared());
            }
        };
        assert forall|j: int, k: int, id: int|
            0 <= j < k < now.node.len() && (#[trigger] now.node[j].owns(id)) implies !(
        #[trigger] now.node[k].owns(id)) by {
            if now.node[k].owns(id) {
                if j != i && k != i {
                    assert(prev.node[j].owns(id));
                    assert(prev.node[k].owns(id));
                } else if j == i {
                    assert(prev.node[k].owns(id));
                    assert(self.node[k].owns(id) || low <= id < mid);
                    assert(self.node[i].owns(id) || mid <= id < high);
                    if self.node[i].owns(id) && self.node[k].owns(id) {
                        assert(!self.node[k].owns(id));
                    }
                } else {
                    assert(prev.node[j].owns(id));
                    assert(self.node[j].owns(id) || low <= id < mid);
                    assert(self.node[i].owns(id) || mid <= id < high);
                    if self.node[j].owns(id) && self.node[i].owns(id) {
                        assert(!self.node[i].owns(id));
                    }
                }
            }
        };
    }

    /// A node whose children are seated, and that holds the slot it held or the first
    /// slot that was added, shares no slot; and it owns what it owned or slots that were
    /// added.
    pub proof fn seated(self, last: NodeView<B>, len0: int, low: int, high: int)
        requires
            self.unshared(),
            self.below(len0),
            len0 <= low <= high,
            self.seats_children(last, low, high),
            (last.render_id == self.render_id) || (last.has_slot(len0) && low == len0 + 1),
        ensures
            last.unshared(),
            last.below(high),
            forall|id: int| last.owns(id) ==> self.owns(id) || len0 <= id < high,
    {
        assert forall|j: int, id: int| 0 <= j < self.node.len() && self.node[j].owns(id) implies id
            < len0 by {
            if id >= len0 {
                self.node[j].new_slot_is_unowned(len0, id);
            }
        };
        assert forall|k: int| 0 <= k < last.node.len() && last.render_id is Some implies !(
        #[trigger] last.node[k]).owns(last.render_id->0 as int) by {
            let own = last.render_id->0 as int;
            if last.node[k].owns(own) {
                assert(self.node[k].owns(own) || low <= own < high);
                if last.render_id == self.render_id {
                    assert(!self.node[k].owns(own));
                }
            }
        };
        assert forall|id: int| last.owns(id) implies self.owns(id) || len0 <= id < high by {
            if last.has_slot(id) {
                if last.render_id == self.render_id {
                    assert(self.has_slot(id));
                }
            } else {
                let k = choose|k: int| 0 <= k < last.node.len() && (#[trigger] last.node[k]).owns(id);
                assert(last.node[k].owns(id));
                if self.node[k].owns(id) {
                    self.owns_of_child(k, id);
                }
            }
        };
        assert forall|id: int| last.owns(id) implies id < high by {
            if self.owns(id) && id >= len0 {
                self.new_slot_is_unowned(len0, id);
            }
        };
        last.below_by_owning(high);
    }

    /// Slots that lie below `n` lie below every larger number.
    pub proof fn below_grows(self, n: int, m: int)
        requires
            self.below(n),
            n <= m,
        ensures
            self.below(m),
        decreases self,
    {
        assert forall|k: int| 0 <= k < self.node.len() implies (#[trigger] self.node[k]).below(m) by {
            self.node[k].below_grows(n, m);
        };
    }

    /// A subtree that owns no slot from `n` on names only slots below `n`.
    pub proof fn below_by_owning(self, n: int)
        requires
            forall|id: int| self.owns(id) ==> id < n,
        ensures
            self.below(n),
        decreases self,
    {
        if self.render_id is Some {
            assert(self.has_slot(self.render_id->0 as int));
            assert(self.owns(self.render_id->0 as int));
        }
        assert forall|k: int| 0 <= k < self.node.len() implies (#[trigger] self.node[k]).below(n) by {
            assert forall|id: int| self.node[k].owns(id) implies id < n by {
                self.owns_of_child(k, id);
            };
            self.node[k].below_by_owning(n);
        };
    }

    /// A tree whose nodes all have a slot in use names no slot beyond the table.
    pub proof fn housed_lies_below<V>(self, table: Seq<Option<SlotView<V>>>)
        requires
            self.housed_all(table),
        ensures
            self.below(table.len() as int),
        decreases self,
    {
        assert forall|k: int| 0 <= k < self.node.len() implies (#[trigger] self.node[k]).below(
            table.len() as int,
        ) by {
            self.node[k].housed_lies_below(table);
        };
    }

    /// No two nodes come to share a slot by entering the tree: a node that enters gets
    /// the slot at the end of the table, and a tree whose slots lie in the table names
    /// no slot from the end of the table on.
    pub proof fn new_slot_is_unowned(self, n: int, id: int)
        requires
            self.below(n),
            id >= n,
        ensures
            !self.owns(id),
        decreases self,
    {
        assert forall|k: int| 0 <= k < self.node.len() implies !(#[trigger] self.node[k]).owns(id) by {
            self.node[k].new_slot_is_unowned(n, id);
        };
    }

    /// What a child owns, its parent owns.
    pub proof fn owns_of_child(self, k: int, id: int)
        requires
            0 <= k < self.node.len(),
            self.node[k].owns(id),
        ensures
            self.owns(id),
    {
    }

    /// Hiding changes tags only.
    pub proof fn dimmed_keeps_skeleton(self)
        ensures
            self.dimmed().skeleton() == self.skeleton(),
        decreases self,
    {
        assert forall|k: int| 0 <= k < self.node.len() implies (#[trigger] self.dimmed().node[k]).skeleton()
            == self.node[k].skeleton() by {
            self.node[k].dimmed_keeps_skeleton();
        };
        assert(self.dimmed().skeleton().node =~= self.skeleton().node);
    }
}

impl<B> Node2d<B> {
    /// The content of a node is the content of its fields, and of its children in
    /// their order.
    pub proof fn view_of_fields(&self)
        ensures
            self@.name == self.name@,
            self@.body == self.body,
            self@.keep == self.keep,
            self@.visible == self.visible,
            self@.script == self.script,
            self@.touch_id == self.touch_id,
            self@.render_id == self.render_id,
            self@.draw_update == self.draw_update,
            self@.shown == self.shown,
            self@.hash == hash_view(self.hash),
            self@.node.len() == self.node@.len(),
            forall|k: int| 0 <= k < self.node@.len() ==> (#[trigger] self@.node[k]) == self.node@[k]@,
    {
    }

    /// Takes the geometry of the node and of all nodes below it out of the table, and
    /// tags nodes and slots so that a later draw builds it again.
    pub fn conceal<V>(&mut self, table: &mut Renders<V>)
        ensures
            final(self)@ == old(self)@.dimmed(),
            final(table)@ == old(self)@.wiped(old(table)@),
        decreases old(self).node@,
    {
        self.draw_update = self.draw_update.merge(DrawUpdate::Update);
        if let Some(id) = self.render_id {
            table.render(id, Vec::new(), Vec::new());
            table.mark(id, DrawUpdate::Update);
        }
        proof {
            let owned = old(self)@.ids_upto(0);
            assert forall|id: int| owned.contains(id) == old(self)@.has_slot(id) by {};
            assert(table@ =~= wipe(old(table)@, owned));
        }
        let n = self.node.len();
        let mut i: usize = 0;
        while i < n
            invariant
                i <= n,
                n == old(self).node@.len(),
                self.node@.len() == n,
                self.name == old(self).name,
                self.body == old(self).body,
                self.keep == old(self).keep,
                self.visible == old(self).visible,
                self.script == old(self).script,
                self.touch_id == old(self).touch_id,
                self.render_id == old(self).render_id,
                self.shown == old(self).shown,
                self.hash == old(self).hash,
                self.draw_update == old(self).draw_update.join(DrawUpdate::Update),
                forall|j: int| 0 <= j < i ==> (#[trigger] self.node@[j])@ == old(self).node@[j]@.dimmed(),
                forall|j: int| i <= j < n ==> (#[trigger] self.node@[j]) == old(self).node@[j],
                table@ == wipe(old(table)@, old(self)@.ids_upto(i as int)),
            decreases n - i,
        {
            let ghost before = table@;
            let ghost child = self.node@[i as int]@;
            self.node[i].conceal(table);
            proof {
                assert(child == old(self)@.node[i as int]);
                assert forall|id: int| old(self)@.owns_upto(i + 1, id) == (old(self)@.owns_upto(
                    i as int,
                    id,
                ) || child.owns(id)) by {
                    if old(self)@.owns_upto(i + 1, id) && !old(self)@.owns_upto(i as int, id) {
                        let k = choose|k: int|
                            0 <= k < i + 1 && k < old(self)@.node.len() && (
                            #[trigger] old(self)@.node[k]).owns(id);
                        assert(k == i);
                    }
                    if child.owns(id) {
                        assert(old(self)@.node[i as int].owns(id));
                    }
                };
                assert(table@ =~= wipe(old(table)@, old(self)@.ids_upto(i + 1)));
            }
            i += 1;
        }
        proof {
            assert forall|id: int| old(self)@.owns_upto(n as int, id) == old(self)@.owns(id) by {
                if old(self)@.owns(id) && !old(self)@.has_slot(id) {
                    let k = choose|k: int|
                        0 <= k < old(self)@.node.len() && (#[trigger] old(self)@.node[k]).owns(id);
                    assert(old(self)@.node[k].owns(id));
                }
            };
            assert(old(self)@.ids_upto(n as int) =~= old(self)@.ids());
            assert(self@.node =~= old(self)@.dimmed().node);
        }
    }
}


/// The nodes that a list of builders holds.
pub open spec fn built<B>(node: Seq<CreateNode2d<B>>) -> Seq<NodeView<B>> {
    Seq::new(node.len(), |i: int| node[i].node2d@)
}

/// The nodes `added` as they are after they entered a tree one after the other, and
/// the table after that: a node that has a slot in use stays as it is, and any other
/// gets the slot that is added at the end of the table for it, and is tagged `Create`.
pub open spec fn admitted<B, V>(added: Seq<NodeView<B>>, table: Seq<Option<SlotView<V>>>) -> (
    Seq<NodeView<B>>,
    Seq<Option<SlotView<V>>>,
)
    decreases added.len(),
{
    if added.len() == 0 {
        (seq![], table)
    } else {
        let before = admitted(added.drop_last(), table);
        let last = added.last();
        if last.housed(before.1) {
            (before.0.push(last), before.1)
        } else {
            (
                before.0.push(
                    NodeView {
                        render_id: Some(before.1.len() as usize),
                        draw_update: DrawUpdate::Create,
                        ..last
                    },
                ),
                before.1.push(Some(SlotView::fresh())),
            )
        }
    }
}

/// Nodes without a slot get the slots that follow the table, one each and in their
/// order.
pub proof fn admitted_unhoused<B, V>(added: Seq<NodeView<B>>, table: Seq<Option<SlotView<V>>>)
    requires
        forall|i: int| 0 <= i < added.len() ==> (#[trigger] added[i]).render_id is None,
    ensures
        admitted(added, table).0.len() == added.len(),
        admitted(added, table).1 == table + Seq::new(added.len(), |i: int| Some(SlotView::<V>::fresh())),
        forall|i: int|
            0 <= i < added.len() ==> (#[trigger] admitted(added, table).0[i]) == (NodeView {
                render_id: Some((table.len() + i) as usize),
                draw_update: DrawUpdate::Create,
                ..added[i]
            }),
    decreases added.len(),
{
    if added.len() > 0 {
        admitted_unhoused(added.drop_last(), table);
        let before = admitted(added.drop_last(), table);
        assert(!added.last().housed(before.1));
        assert(admitted(added, table).1 =~= table + Seq::new(
            added.len(),
            |i: int| Some(SlotView::<V>::fresh()),
        ));
    } else {
        assert(admitted(added, table).1 =~= table + Seq::new(
            added.len(),
            |i: int| Some(SlotView::<V>::fresh()),
        ));
    }
}

/// A subtree that owns no slot shares none.
pub proof fn unowning_is_unshared<B>(node: NodeView<B>)
    requires
        forall|id: int| !node.owns(id),
    ensures
        node.unshared(),
    decreases node,
{
    assert forall|k: int, id: int| 0 <= k < node.node.len() implies !(#[trigger] node.node[k].owns(id)) by {
        if node.node[k].owns(id) {
            node.owns_of_child(k, id);
            assert(node.owns(id));
        }
    };
    assert forall|k: int| 0 <= k < node.node.len() implies (#[trigger] node.node[k]).unshared() by {
        assert forall|id: int| !node.node[k].owns(id) by {
            assert(!node.node[k].owns(id));
        };
        unowning_is_unshared(node.node[k]);
    };
}

/// The slots of `table` that `owned` names, given back; the others as they are.
pub open spec fn released<V>(table: Seq<Option<SlotView<V>>>, owned: Set<int>) -> Seq<Option<SlotView<V>>> {
    Seq::new(
        table.len(),
        |i: int|
            if owned.contains(i) {
                None
            } else {
                table[i]
            },
    )
}

/// The message of a deletion that found no child called `name`.
pub open spec fn not_found(name: Seq<char>) -> Seq<char> {
    "Not found object ("@ + name + ")"@
}

impl<B> Node2d<B> {
    /// Gives the node a render slot, unless it has one that is in use, and says whether
    /// it did. The new slot is the last of the table, so it is no other node's; the
    /// node is tagged `Create`, so that its next draw builds its geometry.
    pub fn enter<V>(&mut self, table: &mut Renders<V>) -> (fresh: bool)
        ensures
            fresh == !old(self)@.housed(old(table)@),
            !fresh ==> final(self)@ == old(self)@ && final(table)@ == old(table)@,
            fresh ==> final(self)@ == (NodeView {
                render_id: final(self).render_id,
                draw_update: DrawUpdate::Create,
                ..old(self)@
            }) && final(self)@.has_slot(old(table)@.len() as int) && final(table)@ == old(table)@.push(
                Some(SlotView::fresh()),
            ),
            final(self)@.housed(final(table)@),
    {
        let housed = match self.render_id {
            Some(id) => table.is_live(id),
            None => false,
        };
        if !housed {
            let id = table.new_render();
            self.render_id = Some(id);
            self.draw_update = DrawUpdate::Create;
        }
        assert(self@.node =~= old(self)@.node);
        !housed
    }

    /// Records what an update found out about the node: a node that moved or changed
    /// its shape is tagged for an update, and a visible node that changed its shape has
    /// its slot drawn with `image` from now on. A node that has just got its slot counts
    /// as one that changed its shape.
    pub fn note<V>(&mut self, table: &mut Renders<V>, moved: bool, reshaped: bool, image: Option<usize>)
        ensures
            final(self)@ == (NodeView {
                draw_update: if moved || reshaped {
                    old(self).draw_update.join(DrawUpdate::Update)
                } else {
                    old(self).draw_update
                },
                ..old(self)@
            }),
            final(table)@ == if reshaped && old(self).visible && old(self).render_id is Some {
                Renders::with_image(old(table)@, old(self).render_id->0 as int, image)
            } else {
                old(table)@
            },
    {
        if moved || reshaped {
            self.draw_update = self.draw_update.merge(DrawUpdate::Update);
        }
        if reshaped && self.visible {
            if let Some(id) = self.render_id {
                table.set_image(id, image);
            }
        }
        assert(self@.node =~= old(self)@.node);
    }

    /// Brings a node that became visible back: it is tagged for an update, and its slot
    /// is drawn with `image`.
    pub fn uncover<V>(&mut self, table: &mut Renders<V>, image: Option<usize>)
        ensures
            final(self)@ == (NodeView {
                shown: true,
                draw_update: old(self).draw_update.join(DrawUpdate::Update),
                ..old(self)@
            }),
            final(table)@ == if old(self).render_id is Some {
                Renders::with_image(old(table)@, old(self).render_id->0 as int, image)
            } else {
                old(table)@
            },
    {
        self.shown = true;
        self.draw_update = self.draw_update.merge(DrawUpdate::Update);
        if let Some(id) = self.render_id {
            table.set_image(id, image);
        }
        assert(self@.node =~= old(self)@.node);
    }

    /// Writes the node's triangles into its slot and hands the node's tag on to the
    /// slot. The slot's tag is raised, never lowered.
    pub fn paint<V: Copy>(&mut self, table: &mut Renders<V>, outline: Outline<V>)
        ensures
            final(self)@ == (NodeView { draw_update: DrawUpdate::Unchanged, ..old(self)@ }),
            final(table)@ == if old(self).render_id is Some {
                Renders::with_mark(
                    Renders::with_outline(old(table)@, old(self).render_id->0 as int, outline),
                    old(self).render_id->0 as int,
                    old(self).draw_update,
                )
            } else {
                old(table)@
            },
    {
        if let Some(id) = self.render_id {
            table.draw(id, outline);
            table.mark(id, self.draw_update);
        }
        self.draw_update = DrawUpdate::Unchanged;
        assert(self@.node =~= old(self)@.node);
    }

    /// Decides whether a node with a behaviour takes a pointer event, given whether the
    /// pointer lies inside its shape, and keeps track of the pointer that is down on
    /// the node.
    pub fn accepts(&mut self, id: u64, touch: Touch, hit: bool) -> (taken: bool)
        ensures
            taken == old(self)@.takes(id, touch, hit),
            final(self)@ == (NodeView {
                touch_id: old(self)@.owner_after(id, touch, hit),
                ..old(self)@
            }),
    {
        let held = match self.touch_id {
            Some(owner) => owner == id,
            None => false,
        };
        let taken = match touch {
            Touch::Press => {
                if hit {
                    self.touch_id = Some(id);
                }
                hit
            },
            Touch::Relese => {
                if held {
                    self.touch_id = None;
                }
                held
            },
            Touch::Move => held,
        };
        assert(self@.node =~= old(self)@.node);
        taken
    }

    /// The index of the first child called `name`.
    pub fn find(&self, name: &str) -> (r: Option<usize>)
        ensures
            match r {
                Some(k) => self@.named_at(name@, k as int),
                None => self@.unnamed(name@),
            },
    {
        let wanted = name.to_owned();
        let mut i: usize = 0;
        while i < self.node.len()
            invariant
                i <= self.node@.len(),
                wanted@ == name@,
                forall|j: int| 0 <= j < i ==> (#[trigger] self@.node[j]).name != name@,
            decreases self.node@.len() - i,
        {
            proof {
                self.node@[i as int].view_of_fields();
                assert(self@.node[i as int] == self.node@[i as int]@);
            }
            if self.node[i].name == wanted {
                assert(self@.named_at(name@, i as int));
                return Some(i);
            }
            i += 1;
        }
        None
    }

    /// The first child called `name`, to read or to change.
    pub fn get_node(&mut self, name: &str) -> (r: Option<&mut Node2d<B>>)
        ensures
            match r {
                Some(child) => exists|k: int|
                    #![trigger old(self)@.node[k]]
                    old(self)@.named_at(name@, k) && child@ == old(self)@.node[k] && final(self)@
                        == (NodeView { node: old(self)@.node.update(k, final(child)@), ..old(self)@ }),
                None => old(self)@.unnamed(name@) && final(self)@ == old(self)@,
            },
    {
        match self.find(name) {
            Some(k) => {
                proof {
                    assert(old(self)@.named_at(name@, k as int));
                    let before = *old(self);
                    assert forall|after: Node2d<B>, child: Node2d<B>|
                        after.node@ == before.node@.update(k as int, child) && after.name
                            == before.name && after.body == before.body && after.keep == before.keep
                            && after.visible == before.visible && after.script == before.script
                            && after.touch_id == before.touch_id && after.render_id
                            == before.render_id && after.draw_update == before.draw_update
                            && after.shown == before.shown && after.hash == before.hash implies #[trigger] after.content() == (
                    NodeView {
                        node: before@.node.update(k as int, #[trigger] child.content()),
                        ..before@
                    }) by {
                        assert(after@.node =~= before@.node.update(k as int, child@));
                    };
                }
                let child = &mut self.node[k];
                Some(child)
            },
            None => None,
        }
    }

    /// Appends the nodes that `node` describes to the children, in their order. Each of
    /// them that has no render slot in use gets one, at the end of the table, and is
    /// tagged `Create`; nothing else in the table changes.
    pub fn add_node<V>(&mut self, node: Vec<CreateNode2d<B>>, table: &mut Renders<V>)
        ensures
            final(self)@ == (NodeView {
                node: old(self)@.node + admitted(built(node@), old(table)@).0,
                ..old(self)@
            }),
            final(table)@ == admitted(built(node@), old(table)@).1,
            old(self)@.unshared() && old(self)@.below(old(table)@.len() as int) && (forall|i: int, id: int|
                0 <= i < node@.len() ==> !(#[trigger] node@[i].node2d@.owns(id))) ==> {
                &&& final(self)@.unshared()
                &&& final(self)@.below(final(table)@.len() as int)
            },
            (forall|i: int| 0 <= i < node@.len() ==> (#[trigger] node@[i]).node2d@.render_id is None) ==> {
                &&& final(table)@ == old(table)@ + Seq::new(node@.len(), |i: int| Some(SlotView::<V>::fresh()))
                &&& forall|i: int|
                    0 <= i < node@.len() ==> (#[trigger] final(self)@.node[old(self)@.node.len() + i]) == (
                    NodeView {
                        render_id: Some((old(table)@.len() + i) as usize),
                        draw_update: DrawUpdate::Create,
                        ..node@[i].node2d@
                    })
            },
    {
        let ghost added = built(node@);
        let ghost old_node = node@;
        let ghost table0 = table@;
        let mut node = node;
        let mut turned: Vec<Node2d<B>> = Vec::new();
        while node.len() > 0
            invariant
                node@.len() + turned@.len() == added.len(),
                forall|j: int| 0 <= j < node@.len() ==> (#[trigger] node@[j]).node2d@ == added[j],
                forall|j: int|
                    0 <= j < turned@.len() ==> (#[trigger] turned@[j])@ == added[added.len() - 1 - j],
            decreases node@.len(),
        {
            let built = node.pop().unwrap();
            turned.push(built.node2d);
        }
        let n = turned.len();
        let ghost kids = old(self).node@.len();
        assert(added.take(0) =~= Seq::<NodeView<B>>::empty());
        while turned.len() > 0
            invariant
                n == added.len(),
                turned@.len() <= n,
                kids == old(self).node@.len(),
                table0 == old(table)@,
                forall|j: int|
                    0 <= j < turned@.len() ==> (#[trigger] turned@[j])@ == added[added.len() - 1 - j],
                self.node@.len() == kids + n - turned@.len(),
                forall|j: int| 0 <= j < kids ==> (#[trigger] self.node@[j])@ == old(self).node@[j]@,
                admitted(added.take(n - turned@.len()), table0).0.len() == n - turned@.len(),
                forall|j: int|
                    kids <= j < self.node@.len() ==> (#[trigger] self.node@[j])@ == admitted(
                        added.take(n - turned@.len()),
                        table0,
                    ).0[j - kids],
                table@ == admitted(added.take(n - turned@.len()), table0).1,
                self.name == old(self).name,
                self.body == old(self).body,
                self.keep == old(self).keep,
                self.visible == old(self).visible,
                self.script == old(self).script,
                self.touch_id == old(self).touch_id,
                self.render_id == old(self).render_id,
                self.draw_update == old(self).draw_update,
                self.shown == old(self).shown,
                self.hash == old(self).hash,
            decreases turned@.len(),
        {
            let ghost k = n - turned@.len();
            let mut child = turned.pop().unwrap();
            proof {
                assert(added.take(k + 1).drop_last() =~= added.take(k));
                assert(added.take(k + 1).last() == added[k]);
                assert(child@ == added[k]);
            }
            child.enter(table);
            self.node.push(child);
        }
        let slots = table.len();
        proof {
            assert(added.take(n as int) =~= added);
            assert(self@.node =~= old(self)@.node + admitted(added, table0).0);
            if forall|i: int| 0 <= i < added.len() ==> (#[trigger] added[i]).render_id is None {
                admitted_unhoused(added, table0);
            }
            let first = old(self)@;
            let len0 = table0.len() as int;
            if first.unshared() && first.below(len0) && (forall|i: int, id: int|
                0 <= i < old_node.len() ==> !(#[trigger] old_node[i].node2d@.owns(id))) {
                assert forall|i: int| 0 <= i < added.len() implies (#[trigger] added[i]).render_id is None by {
                    assert(added[i] == old_node[i].node2d@);
                    if added[i].render_id is Some {
                        assert(old_node[i].node2d@.has_slot(added[i].render_id->0 as int));
                        assert(old_node[i].node2d@.owns(added[i].render_id->0 as int));
                    }
                };
                admitted_unhoused(added, table0);
                let last = self@;
                let n0 = first.node.len() as int;
                assert(table@.len() == len0 + added.len());
                assert(len0 + added.len() == slots);
                // what each child owns
                assert forall|k: int, id: int| n0 <= k < last.node.len() && (#[trigger] last.node[k].owns(
                    id,
                )) implies id == len0 + (k - n0) by {
                    let i = k - n0;
                    assert(added[i] == old_node[i].node2d@);
                    assert(last.node[k] == admitted(added, table0).0[i]);
                    assert(last.node[k].node =~= added[i].node);
                    if !last.node[k].has_slot(id) {
                        let c = choose|c: int|
                            0 <= c < last.node[k].node.len() && (#[trigger] last.node[k].node[c]).owns(id);
                        assert(added[i].node[c].owns(id));
                        assert(old_node[i].node2d@.owns(id));
                    }
                };
                assert forall|k: int, id: int| 0 <= k < n0 && (#[trigger] last.node[k].owns(id)) implies id
                    < len0 by {
                    assert(last.node[k] == first.node[k]);
                    if id >= len0 {
                        first.node[k].new_slot_is_unowned(len0, id);
                    }
                };
                assert forall|k: int| 0 <= k < last.node.len() implies (#[trigger] last.node[k]).unshared() by {
                    if k >= n0 {
                        let i = k - n0;
                        assert(added[i] == old_node[i].node2d@);
                        assert(last.node[k] == admitted(added, table0).0[i]);
                        assert(last.node[k].node =~= added[i].node);
                        assert forall|c: int, id: int|
                            0 <= c < last.node[k].node.len() implies !(#[trigger] last.node[k].node[c].owns(
                            id,
                        )) by {
                            if added[i].node[c].owns(id) {
                                assert(old_node[i].node2d@.owns(id));
                            }
                        };
                        assert forall|c: int| 0 <= c < last.node[k].node.len() implies (
                        #[trigger] last.node[k].node[c]).unshared() by {
                            unowning_is_unshared(last.node[k].node[c]);
                        };
                    } else {
                        assert(last.node[k] == first.node[k]);
                    }
                };
                assert forall|k: int| 0 <= k < last.node.len() && last.render_id is Some implies !(
                #[trigger] last.node[k]).owns(last.render_id->0 as int) by {
                    if k < n0 {
                        assert(last.node[k] == first.node[k]);
                    }
                };
                assert(last.unshared());
                assert forall|id: int| last.owns(id) implies id < table@.len() by {
                    if !last.has_slot(id) {
                        let k = choose|k: int| 0 <= k < last.node.len() && (#[trigger] last.node[k]).owns(id);
                        assert(last.node[k].owns(id));
                    }
                };
                last.below_by_owning(table@.len() as int);
            }
        }
    }

    /// Appends the nodes that `node` describes to the children of a node that is itself
    /// under construction, in their order and as they were built.
    fn append(&mut self, node: Vec<CreateNode2d<B>>)
        ensures
            final(self)@ == (NodeView {
                node: old(self)@.node + Seq::new(node@.len(), |i: int| node@[i].node2d@),
                ..old(self)@
            }),
    {
        let ghost added = Seq::new(node@.len(), |i: int| node@[i].node2d@);
        let mut node = node;
        let mut turned: Vec<Node2d<B>> = Vec::new();
        while node.len() > 0
            invariant
                node@.len() + turned@.len() == added.len(),
                forall|j: int| 0 <= j < node@.len() ==> (#[trigger] node@[j]).node2d@ == added[j],
                forall|j: int|
                    0 <= j < turned@.len() ==> (#[trigger] turned@[j])@ == added[added.len() - 1 - j],
            decreases node@.len(),
        {
            let built = node.pop().unwrap();
            turned.push(built.node2d);
        }
        while turned.len() > 0
            invariant
                turned@.len() <= added.len(),
                forall|j: int|
                    0 <= j < turned@.len() ==> (#[trigger] turned@[j])@ == added[added.len() - 1 - j],
                self.node@.len() == old(self).node@.len() + added.len() - turned@.len(),
                forall|j: int|
                    0 <= j < old(self).node@.len() ==> (#[trigger] self.node@[j])@ == old(self).node@[j]@,
                forall|j: int|
                    old(self).node@.len() <= j < self.node@.len() ==> (#[trigger] self.node@[j])@
                        == added[j - old(self).node@.len()],
                self.name == old(self).name,
                self.body == old(self).body,
                self.keep == old(self).keep,
                self.visible == old(self).visible,
                self.script == old(self).script,
                self.touch_id == old(self).touch_id,
                self.render_id == old(self).render_id,
                self.draw_update == old(self).draw_update,
                self.shown == old(self).shown,
                self.hash == old(self).hash,
            decreases turned@.len(),
        {
            let child = turned.pop().unwrap();
            self.node.push(child);
        }
        assert(self@.node =~= old(self)@.node + added);
    }

    /// The index of the entry that counts for `key`.
    fn hash_index(&self, key: &str) -> (r: Option<usize>)
        ensures
            match r {
                Some(k) => self@.kept_at(key@, k as int),
                None => self@.keeps_nothing(key@),
            },
    {
        let wanted = key.to_owned();
        let mut i: usize = 0;
        while i < self.hash.len()
            invariant
                i <= self.hash@.len(),
                wanted@ == key@,
                forall|j: int| 0 <= j < i ==> (#[trigger] self@.hash[j]).0 != key@,
            decreases self.hash@.len() - i,
        {
            if self.hash[i].0 == wanted {
                assert(self@.kept_at(key@, i as int));
                return Some(i);
            }
            i += 1;
        }
        None
    }

    /// Keeps `value` under `key` and forgets what was kept under the key before.
    pub fn set_hash(&mut self, key: &str, value: Vec<u8>)
        ensures
            old(self)@.keeps_nothing(key@) ==> final(self)@ == (NodeView {
                hash: old(self)@.hash.push((key@, value@)),
                ..old(self)@
            }),
            forall|k: int|
                old(self)@.kept_at(key@, k) ==> final(self)@ == (NodeView {
                    hash: old(self)@.hash.update(k, (key@, value@)),
                    ..old(self)@
                }),
            exists|k: int| final(self)@.kept_at(key@, k) && final(self)@.hash[k].1 == value@,
    {
        match self.hash_index(key) {
            Some(k) => {
                self.hash[k] = (key.to_owned(), value);
                proof {
                    assert(self@.hash =~= old(self)@.hash.update(k as int, (key@, value@)));
                    assert(self@.node =~= old(self)@.node);
                    assert(self@.kept_at(key@, k as int));
                }
            },
            None => {
                self.hash.push((key.to_owned(), value));
                proof {
                    assert(self@.hash =~= old(self)@.hash.push((key@, value@)));
                    assert(self@.node =~= old(self)@.node);
                    assert(self@.kept_at(key@, old(self)@.hash.len() as int));
                }
            },
        }
    }

    /// What is kept under `key`.
    pub fn get_hash(&self, key: &str) -> (r: Option<&Vec<u8>>)
        ensures
            match r {
                Some(value) => exists|k: int|
                    #![trigger self@.hash[k]]
                    self@.kept_at(key@, k) && value@ == self@.hash[k].1,
                None => self@.keeps_nothing(key@),
            },
    {
        match self.hash_index(key) {
            Some(k) => {
                assert(self@.hash[k as int].1 == self.hash@[k as int].1@);
                Some(&self.hash[k].1)
            },
            None => None,
        }
    }

    /// What is kept under `key`, to change in place.
    pub fn get_hash_mut(&mut self, key: &str) -> (r: Option<&mut Vec<u8>>)
        ensures
            match r {
                Some(value) => exists|k: int|
                    #![trigger old(self)@.hash[k]]
                    old(self)@.kept_at(key@, k) && value@ == old(self)@.hash[k].1 && final(self)@ == (
                    NodeView { hash: old(self)@.hash.update(k, (key@, final(value)@)), ..old(self)@ }),
                None => old(self)@.keeps_nothing(key@) && final(self)@ == old(self)@,
            },
    {
        match self.hash_index(key) {
            Some(k) => {
                proof {
                    assert(old(self)@.kept_at(key@, k as int));
                    let before = *old(self);
                    assert(before@.hash[k as int].1 == before.hash@[k as int].1@);
                    assert forall|after: Node2d<B>, value: Vec<u8>|
                        after.hash@ == before.hash@.update(k as int, (before.hash@[k as int].0, value))
                            && after.name == before.name && after.body == before.body && after.keep
                            == before.keep && after.visible == before.visible && after.script
                            == before.script && after.touch_id == before.touch_id && after.render_id
                            == before.render_id && after.draw_update == before.draw_update
                            && after.shown == before.shown && after.node == before.node implies (
                    #[trigger] after.content()) == (NodeView {
                        hash: before@.hash.update(k as int, (key@, #[trigger] value.view())),
                        ..before@
                    }) by {
                        assert(after@.hash =~= before@.hash.update(k as int, (key@, value@)));
                        assert(after@.node =~= before@.node);
                    };
                }
                Some(&mut self.hash[k].1)
            },
            None => None,
        }
    }

    /// Gives back the slots of this node and of all nodes below it.
    pub fn release<V>(&self, table: &mut Renders<V>)
        ensures
            final(table)@ == released(old(table)@, self@.ids()),
        decreases self,
    {
        if let Some(id) = self.render_id {
            table.del_render(id);
        }
        proof {
            let owned = self@.ids_upto(0);
            assert forall|id: int| owned.contains(id) == self@.has_slot(id) by {};
            assert(table@ =~= released(old(table)@, owned));
        }
        let n = self.node.len();
        let mut i: usize = 0;
        while i < n
            invariant
                i <= n,
                n == self.node@.len(),
                table@ == released(old(table)@, self@.ids_upto(i as int)),
            decreases n - i,
        {
            self.node[i].release(table);
            proof {
                let child = self@.node[i as int];
                assert forall|id: int| self@.owns_upto(i + 1, id) == (self@.owns_upto(i as int, id)
                    || child.owns(id)) by {
                    if self@.owns_upto(i + 1, id) && !self@.owns_upto(i as int, id) {
                        let k = choose|k: int|
                            0 <= k < i + 1 && k < self@.node.len() && (#[trigger] self@.node[k]).owns(
                                id,
                            );
                        assert(k == i);
                    }
                    if child.owns(id) {
                        assert(self@.node[i as int].owns(id));
                    }
                };
                assert(table@ =~= released(old(table)@, self@.ids_upto(i + 1)));
            }
            i += 1;
        }
        proof {
            assert forall|id: int| self@.owns_upto(n as int, id) == self@.owns(id) by {
                if self@.owns(id) && !self@.has_slot(id) {
                    let k = choose|k: int| 0 <= k < self@.node.len() && (#[trigger] self@.node[k]).owns(id);
                    assert(self@.node[k].owns(id));
                }
            };
            assert(self@.ids_upto(n as int) =~= self@.ids());
        }
    }

    /// Takes the first child called `name` out of the tree and gives back the slots of
    /// its subtree. Without such a child nothing changes, and the error names `name`.
    pub fn del_node<V>(&mut self, name: &str, table: &mut Renders<V>) -> (r: Result<Node2d<B>, String>)
        ensures
            match r {
                Ok(gone) => {
                    &&& exists|k: int|
                        #![trigger old(self)@.node[k]]
                        old(self)@.named_at(name@, k) && gone@ == old(self)@.node[k] && final(self)@ == (
                        NodeView { node: old(self)@.node.remove(k), ..old(self)@ }) && final(table)@
                            == released(old(table)@, gone@.ids())
                    &&& old(self)@.unshared() ==> final(self)@.unshared() && gone@.unshared()
                },
                Err(message) => {
                    &&& old(self)@.unnamed(name@)
                    &&& final(self)@ == old(self)@
                    &&& final(table)@ == old(table)@
                    &&& message@ == not_found(name@)
                },
            },
    {
        match self.find(name) {
            Some(k) => {
                let gone = self.node.remove(k);
                gone.release(table);
                proof {
                    assert(old(self)@.named_at(name@, k as int));
                    assert(self@.node =~= old(self)@.node.remove(k as int));
                    let first = old(self)@;
                    let last = self@;
                    if first.unshared() {
                        assert(gone@ == first.node[k as int]);
                        assert forall|j: int| 0 <= j < last.node.len() implies (#[trigger] last.node[j])
                            == first.node[if j < k { j } else { j + 1 }] by {};
                        assert forall|j: int| 0 <= j < last.node.len() && last.render_id is Some implies !(
                        #[trigger] last.node[j]).owns(last.render_id->0 as int) by {
                            let _ = first.node[if j < k { j } else { j + 1 }];
                        };
                        assert forall|i: int, j: int, id: int|
                            0 <= i < j < last.node.len() && (#[trigger] last.node[i].owns(id)) implies !(
                        #[trigger] last.node[j].owns(id)) by {
                            let a = if i < k { i } else { i + 1 };
                            let b = if j < k { j } else { j + 1 };
                            assert(first.node[a].owns(id));
                            assert(!first.node[b].owns(id));
                        };
                        assert forall|j: int| 0 <= j < last.node.len() implies (#[trigger] last.node[j]).unshared() by {
                            let _ = first.node[if j < k { j } else { j + 1 }];
                        };
                    }
                }
                Ok(gone)
            },
            None => {
                let message = String::from_str("Not found object (").concat(name).concat(")");
                Err(message)
            },
        }
    }
}

/// Whether a press hits a node, given what its shape is made of and whether the pointer
/// lies inside the shape: a node without a shape is hit wherever the pointer is.
pub fn press_hits(shape: Shape, inside: bool) -> (hit: bool)
    ensures
        hit == (shape is Blank || inside),
{
    match shape {
        Shape::Blank => true,
        _ => inside,
    }
}

impl<B: Body> Node2d<B> {
    /// Collects the vertices of the node's shape: none for a blank shape, the centre and
    /// [`SEGMENTS`] ring vertices in their order for a fan, the four corners in their
    /// order for a quad.
    pub fn outline(&self, shape: Shape, tint: &B::Tint) -> (o: Outline<B::Vertex>)
        ensures
            shape is Blank ==> o is Blank,
            shape.is_fan() ==> o is Fan && o.vertices().len() == SEGMENTS + 1 && o.indices() == fan(
                SEGMENTS,
            ),
            shape.is_quad() ==> o is Quad && o.vertices().len() == 4 && o.indices() == quad(),
    {
        match shape {
            Shape::Blank => Outline::Blank,
            Shape::Circle | Shape::Rect { rounded: true } => {
                let mut vertices: Vec<B::Vertex> = Vec::new();
                vertices.push(self.body.hub(tint));
                let mut step: u16 = 0;
                while step < SEGMENTS
                    invariant
                        step <= SEGMENTS,
                        vertices@.len() == step + 1,
                    decreases SEGMENTS - step,
                {
                    vertices.push(self.body.rim(step, tint));
                    step += 1;
                }
                Outline::Fan(vertices)
            },
            Shape::Rect { rounded: false } | Shape::Image => {
                Outline::Quad(
                    [
                        self.body.corner(0, tint),
                        self.body.corner(1, tint),
                        self.body.corner(2, tint),
                        self.body.corner(3, tint),
                    ],
                )
            },
        }
    }

    /// Hands a keyboard event to every behaviour in the tree, parents before children
    /// and children in their order.
    ///
    /// The walk is bounded as an update is: it goes `depth` levels down and says
    /// whether that was the whole tree. A subtree without behaviours stays as it is, and
    /// is walked as a whole exactly if it is no deeper than `depth`.
    pub fn key<M: Module<B>>(
        &mut self,
        scripts: &M,
        stage: &mut B::Stage,
        key: &Key,
        keymod: ::miniquad::KeyMods,
        touch: Touch,
        depth: usize,
    ) -> (whole: bool)
        ensures
            !old(self)@.scripted() ==> final(self)@ == old(self)@ && *final(stage) == *old(stage),
            whole == final(self)@.within(depth as int),
        decreases depth,
    {
        let ghost first = self@;
        if let Some(script) = self.script {
            scripts.key(script, self, stage, key, keymod, touch);
        }
        let n = self.node.len();
        if n == 0 {
            proof {
                if !first.scripted() {
                    assert(self@.node =~= first.node);
                }
            }
            return true;
        }
        if depth == 0 {
            return false;
        }
        let mut whole = true;
        let mut i: usize = 0;
        while i < n
            invariant
                i <= n,
                n == self.node@.len(),
                depth > 0,
                first == old(self)@,
                !first.scripted() ==> {
                    &&& *stage == *old(stage)
                    &&& n == first.node.len()
                    &&& self.name@ == first.name
                    &&& self.body == first.body
                    &&& self.keep == first.keep
                    &&& self.visible == first.visible
                    &&& self.shown == first.shown
                    &&& hash_view(self.hash) == first.hash
                    &&& self.script == first.script
                    &&& self.touch_id == first.touch_id
                    &&& self.render_id == first.render_id
                    &&& self.draw_update == first.draw_update
                    &&& forall|j: int| 0 <= j < n ==> (#[trigger] self.node@[j])@ == first.node[j]
                },
                whole <==> forall|j: int| 0 <= j < i ==> (#[trigger] self.node@[j])@.within(depth - 1),
            decreases n - i,
        {
            proof {
                if !first.scripted() {
                    let child = self.node@[i as int]@;
                    if child.scripted() {
                        assert(first.node[i as int].scripted());
                    }
                }
            }
            let ghost nodes = self.node@;
            let ghost whole_so_far = whole;
            let child_whole = self.node[i].key(scripts, stage, key, keymod, touch, depth - 1);
            whole = whole && child_whole;
            proof {
                assert forall|j: int| 0 <= j < i implies (#[trigger] self.node@[j]) == nodes[j] by {};
                if whole {
                    assert forall|j: int| 0 <= j < i + 1 implies (#[trigger] self.node@[j])@.within(
                        depth - 1,
                    ) by {
                        if j < i {
                            assert(nodes[j]@.within(depth - 1));
                        }
                    };
                } else if whole_so_far {
                    assert(!self.node@[i as int]@.within(depth - 1));
                } else {
                    let j = choose|j: int| 0 <= j < i && !(#[trigger] nodes[j])@.within(depth - 1);
                    assert(!self.node@[j]@.within(depth - 1));
                }
            }
            i += 1;
        }
        proof {
            if !first.scripted() {
                assert(self@.node =~= first.node);
            }
            assert forall|k: int| 0 <= k < n implies (#[trigger] self@.node[k]) == self.node@[k]@ by {};
            if whole {
                assert forall|k: int| 0 <= k < self@.node.len() implies (#[trigger] self@.node[k]).within(
                    depth - 1,
                ) by {
                    assert(self.node@[k]@.within(depth - 1));
                };
            } else {
                let j = choose|j: int| 0 <= j < n && !(#[trigger] self.node@[j])@.within(depth - 1);
                assert(!self@.node[j].within(depth - 1));
            }
            assert(whole == self@.within(depth as int));
        }
        whole
    }

    /// Draws the node and what lies below it into the table.
    ///
    /// A node that changed its visibility since the last draw is dealt with first: one
    /// that became visible is tagged for an update, one that became invisible has the
    /// geometry of its whole subtree taken out of the table. Then, if the node is
    /// visible, its triangles are built again if it is tagged, the tag goes to the
    /// slot, and the children are drawn with the opacity that the node hands on. An
    /// invisible node is left alone, with all that lies below it.
    ///
    /// Whatever the bodies answer: no slot is added or given back, no tag in the table
    /// is lowered, no slot of another node is written, the tag of every node that the
    /// draw reaches arrives at the node's slot, and a slot holds afterwards what it
    /// held before, nothing, a fan of [`SEGMENTS`] ring vertices, or a quad. After the draw there is
    /// nothing left to do, and a draw that finds nothing to do changes nothing, so a
    /// second draw is the same as none. Of the nodes only tags and the visibility drawn
    /// last change.
    pub fn draw(&mut self, table: &mut Renders<B::Vertex>, tint: &B::Tint)
        ensures
            final(table)@.len() == old(table)@.len(),
            Renders::kept(old(table)@, final(table)@),
            forall|i: int|
                0 <= i < old(table)@.len() && !old(self)@.owns(i) ==> final(table)@[i] == old(table)@[i],
            final(self)@.settled(),
            old(self)@.settled() ==> final(self)@ == old(self)@ && final(table)@ == old(table)@,
            final(self)@.skeleton() == old(self)@.skeleton(),
            old(self)@.handed_over(final(table)@),
            Renders::drawn(old(table)@, final(table)@),
        decreases old(self)@,
    {
        let ghost first = self@;
        let ghost table0 = table@;
        if self.visible != self.shown {
            if self.visible {
                let image = self.body.image();
                self.uncover(table, image);
            } else {
                self.conceal(table);
                self.shown = false;
                proof {
                    first.dimmed_keeps_skeleton();
                    assert(self@.node =~= first.dimmed().node);
                    assert(self@.skeleton().node =~= first.dimmed().skeleton().node);
                    assert(self@.skeleton() == first.skeleton());
                    assert(Renders::kept(table0, table@));
                    assert(Renders::drawn(table0, table@));
                }
                return ;
            }
        }
        if !self.visible {
            return ;
        }
        let own = self.body.tint(tint);
        if self.draw_update.is_dirty() {
            let shape = self.body.shape();
            let outline = self.outline(shape, &own);
            self.paint(table, outline);
        }
        proof {
            if first.settled() {
                assert(self@.node =~= first.node);
                assert(table@ =~= table0);
            }
            assert(Renders::kept(table0, table@));
            assert(Renders::drawn(table0, table@));
        }
        let ghost mid = self@;
        let n = self.node.len();
        let mut i: usize = 0;
        while i < n
            invariant
                i <= n,
                n == self.node@.len(),
                n == first.node.len(),
                self.name@ == first.name,
                self.body == first.body,
                self.keep == first.keep,
                self.visible,
                self.shown,
                hash_view(self.hash) == first.hash,
                self.script == first.script,
                self.touch_id == first.touch_id,
                self.render_id == first.render_id,
                self.draw_update == DrawUpdate::Unchanged,
                first.visible,
                first == old(self)@,
                table0 == old(table)@,
                table@.len() == table0.len(),
                Renders::kept(table0, table@),
                Renders::drawn(table0, table@),
                forall|k: int| 0 <= k < table0.len() && !first.owns(k) ==> table@[k] == table0[k],
                forall|j: int| 0 <= j < i ==> (#[trigger] self.node@[j])@.settled(),
                forall|j: int|
                    0 <= j < i ==> (#[trigger] self.node@[j])@.skeleton() == first.node[j].skeleton(),
                forall|j: int| i <= j < n ==> (#[trigger] self.node@[j])@ == first.node[j],
                first.settled() ==> table@ == table0,
                first.settled() ==> forall|j: int| 0 <= j < i ==> (#[trigger] self.node@[j])@ == first.node[j],
                first.housed(table@) ==> table@[first.render_id->0 as int]->0.update.rank()
                    >= first.draw_update.rank(),
                forall|j: int| 0 <= j < i ==> (#[trigger] first.node[j]).handed_over(table@),
            decreases n - i,
        {
            let ghost before = table@;
            let ghost child = self.node@[i as int]@;
            assert(child == first.node[i as int]);
            self.node[i].draw(table, &own);
            proof {
                if first.housed(table@) {
                    let _ = before[first.render_id->0 as int];
                }
                assert forall|j: int| 0 <= j < i + 1 implies (#[trigger] first.node[j]).handed_over(
                    table@,
                ) by {
                    if j < i {
                        first.node[j].handed_over_persists(before, table@);
                    }
                };
                Renders::drawn_is_transitive(table0, before, table@);
                Renders::kept_is_transitive(table0, before, table@);
                assert forall|k: int| 0 <= k < table0.len() && !first.owns(k) implies table@[k]
                    == table0[k] by {
                    if child.owns(k) {
                        first.owns_of_child(i as int, k);
                    }
                };
                if first.settled() {
                    assert(child.settled());
                }
            }
            i += 1;
        }
        proof {
            assert forall|k: int| 0 <= k < self@.node.len() implies (#[trigger] self@.node[k]).settled() by {
                assert(self@.node[k] == self.node@[k]@);
            };
            assert forall|k: int| 0 <= k < self@.node.len() implies (#[trigger] self@.node[k]).skeleton()
                == first.node[k].skeleton() by {
                assert(self@.node[k] == self.node@[k]@);
            };
            assert(self@.skeleton().node =~= first.skeleton().node);
            if first.settled() {
                assert(self@.node =~= first.node);
            }
        }
    }

    /// Hands a pointer event to the node that takes it.
    ///
    /// The children are asked first, the last one first, so that of the nodes under the
    /// pointer the one drawn on top is asked first; then the node itself, if it has a
    /// behaviour. A node takes a press that lies inside its shape, and from then on the
    /// moves and the release of that pointer. The behaviour of the node that takes the
    /// event says whether the event stays live; once it is no longer live, no further
    /// node is asked. The result says whether the event is still live.
    ///
    /// Whatever bodies and behaviours answer: a subtree in which no node can take the
    /// event passes it on and stays as it is; and where the event ends below a node
    /// without a behaviour, the node stays as it is, and so do its children that lie
    /// behind the one in which the event ended.
    pub fn touch<M: Module<B>>(
        &mut self,
        scripts: &M,
        stage: &mut B::Stage,
        id: u64,
        touch: Touch,
        pos: &B::Point,
    ) -> (live: bool)
        ensures
            old(self)@.deaf(id, touch) ==> {
                &&& live
                &&& final(self)@ == old(self)@
                &&& *final(stage) == *old(stage)
            },
            !live && old(self)@.script is None ==> exists|k: int|
                #![trigger old(self)@.node[k]]
                {
                    &&& 0 <= k < old(self)@.node.len()
                    &&& final(self)@ == (NodeView { node: final(self)@.node, ..old(self)@ })
                    &&& final(self)@.node.len() == old(self)@.node.len()
                    &&& forall|j: int| 0 <= j < k ==> final(self)@.node[j] == old(self)@.node[j]
                },
        decreases old(self)@,
    {
        let ghost first = self@;
        let n = self.node.len();
        let mut live = true;
        let mut i: usize = n;
        while i > 0 && live
            invariant
                i <= n,
                n == self.node@.len(),
                n == first.node.len(),
                first == old(self)@,
                self.name@ == first.name,
                self.body == first.body,
                self.keep == first.keep,
                self.visible == first.visible,
                self.shown == first.shown,
                hash_view(self.hash) == first.hash,
                self.script == first.script,
                self.touch_id == first.touch_id,
                self.render_id == first.render_id,
                self.draw_update == first.draw_update,
                forall|j: int| 0 <= j < i ==> (#[trigger] self.node@[j])@ == first.node[j],
                live || i < n,
                first.deaf(id, touch) ==> live && *stage == *old(stage) && forall|j: int|
                    i <= j < n ==> (#[trigger] self.node@[j])@ == first.node[j],
            decreases i,
        {
            i -= 1;
            let ghost child = self.node@[i as int]@;
            assert(child == first.node[i as int]);
            proof {
                if first.deaf(id, touch) {
                    if touch == Touch::Press {
                        if child.scripted() {
                            assert(first.node[i as int].scripted());
                        }
                    } else {
                        if child.holds(id) {
                            assert(first.node[i as int].holds(id));
                        }
                    }
                    assert(child.deaf(id, touch));
                }
            }
            live = self.node[i].touch(scripts, stage, id, touch, pos);
        }
        if live {
            if let Some(script) = self.script {
                let hit = match touch {
                    Touch::Press => {
                        let shape = self.body.shape();
                        let inside = match shape {
                            Shape::Blank => false,
                            _ => self.body.contains(pos),
                        };
                        press_hits(shape, inside)
                    },
                    _ => false,
                };
                if self.accepts(id, touch, hit) {
                    live = scripts.touch(script, self, stage, id, touch, pos);
                }
            }
        }
        proof {
            if first.deaf(id, touch) {
                assert(self@.node =~= first.node);
            }
            if !live && first.script is None {
                assert(i < n);
                let _ = first.node[i as int];
                assert forall|j: int| 0 <= j < i implies self@.node[j] == first.node[j] by {
                    assert(self.node@[j]@ == first.node[j]);
                };
            }
        }
        live
    }

    /// Brings the node and what lies below it up to date for the frame, parents before
    /// children and children in their order.
    ///
    /// The node's position is resolved, the node's behaviour is called, and the
    /// position is resolved again, since the behaviour may have moved the node. A node
    /// without a render slot in use gets one. A node that moved or changed its shape is
    /// tagged for an update. The children then take their anchor from the node and are
    /// updated themselves.
    ///
    /// A behaviour may hang new nodes below its node while the tree is walked, so the
    /// walk is bounded: it goes `depth` levels down and says whether that was the whole
    /// tree.
    ///
    /// Whatever bodies and behaviours answer: the table only grows, by empty slots; and
    /// after a walk of the whole tree, every node has a render slot that is in use. A
    /// tree without behaviours that is no deeper than `depth` is walked as a whole.
    pub fn update<M: Module<B>>(
        &mut self,
        scripts: &M,
        stage: &mut B::Stage,
        table: &mut Renders<B::Vertex>,
        depth: usize,
    ) -> (whole: bool)
        ensures
            Renders::grown(old(table)@, final(table)@),
            final(self)@.housed(final(table)@),
            whole == final(self)@.within(depth as int),
            whole ==> final(self)@.housed_all(final(table)@),
            !old(self)@.scripted() && old(self)@.within(depth as int) ==> whole,
            !old(self)@.scripted() ==> old(self)@.refreshed_to(final(self)@),
            !old(self)@.scripted() && old(self)@.unshared() && old(self)@.below(old(table)@.len() as int)
                ==> {
                &&& final(self)@.unshared()
                &&& final(self)@.below(final(table)@.len() as int)
                &&& forall|id: int|
                    final(self)@.owns(id) ==> old(self)@.owns(id) || {
                        old(table)@.len() <= id < final(table)@.len()
                    }
            },
        decreases depth,
    {
        let ghost table0 = table@;
        let ghost first = self@;
        let moved = self.body.place(self.keep.anchor(), stage);
        if let Some(script) = self.script {
            scripts.update(script, self, stage);
        }
        let fresh = self.enter(table);
        let moved_again = self.body.place(self.keep.anchor(), stage);
        let reshaped = self.body.reshape();
        let image = self.body.image();
        self.note(table, moved || moved_again, reshaped || fresh, image);
        assert(Renders::grown(table0, table@));
        assert(self@.housed(table@));
        proof {
            if !first.scripted() {
                assert(self@.node =~= first.node);
                assert forall|k: int| 0 <= k < first.node.len() implies (#[trigger] first.node[k]).refreshed_to(
                    self@.node[k],
                ) by {
                    first.node[k].refreshed_to_itself();
                };
                assert(first.refreshed_to(self@));
            }
        }
        let ghost len0 = table0.len() as int;
        let ghost low = table@.len() as int;
        let ghost seats = !first.scripted() && first.unshared() && first.below(len0);
        proof {
            if seats {
                first.seats_own_children(self@, low);
                first.seated(self@, len0, low, low);
            }
        }
        let n = self.node.len();
        if n == 0 {
            return true;
        }
        if depth == 0 {
            return false;
        }
        let mut whole = true;
        let mut i: usize = 0;
        while i < n
            invariant
                i <= n,
                n == self.node@.len(),
                depth > 0,
                table0 == old(table)@,
                Renders::grown(table0, table@),
                self@.housed(table@),
                whole ==> forall|j: int| 0 <= j < i ==> (#[trigger] self.node@[j])@.housed_all(table@),
                first == old(self)@,
                !first.scripted() ==> n == first.node.len() && forall|j: int|
                    i <= j < n ==> (#[trigger] self.node@[j])@ == first.node[j],
                !first.scripted() ==> {
                    &&& self.name@ == first.name
                    &&& self.keep == first.keep
                    &&& self.visible == first.visible
                    &&& self.script == first.script
                    &&& self.touch_id == first.touch_id
                    &&& self.shown == first.shown
                    &&& hash_view(self.hash) == first.hash
                    &&& self.draw_update.rank() >= first.draw_update.rank()
                    &&& self.render_id == first.render_id || self.draw_update == DrawUpdate::Create
                    &&& forall|j: int|
                        0 <= j < i ==> (#[trigger] first.node[j]).refreshed_to(self.node@[j]@)
                },
                !first.scripted() && first.within(depth as int) ==> whole,
                whole <==> forall|j: int| 0 <= j < i ==> (#[trigger] self.node@[j])@.within(depth - 1),
                len0 == table0.len(),
                seats == (!first.scripted() && first.unshared() && first.below(len0)),
                seats ==> {
                    &&& len0 <= low <= table@.len()
                    &&& first.seats_children(self@, low, table@.len() as int)
                    &&& (self.render_id == first.render_id) || (self@.has_slot(len0) && low == len0 + 1)
                },
            decreases n - i,
        {
            let ghost before = table@;
            let ghost own = self.render_id;
            proof {
                if !first.scripted() {
                    let child = self.node@[i as int]@;
                    if child.scripted() {
                        assert(first.node[i as int].scripted());
                    }
                    if first.within(depth as int) {
                        assert(first.node[i as int].within(depth - 1));
                    }
                }
            }
            let ghost child = self.node@[i as int]@;
            let ghost nodes = self.node@;
            let ghost whole_so_far = whole;
            let ghost seen = self@;
            self.node[i].body.follow(&self.body);
            proof {
                let placed = self.node@[i as int]@;
                assert(placed.node =~= child.node);
                assert(placed.scripted() == child.scripted());
                assert(placed.within(depth - 1) == child.within(depth - 1));
            }
            let ghost placed = self.node@[i as int]@;
            let ghost prev = self@;
            proof {
                if seats {
                    let mid = before.len() as int;
                    assert(prev.node[i as int] == placed);
                    assert(seen.node[i as int] == child);
                    assert(placed.render_id == child.render_id);
                    assert forall|id: int| placed.owns(id) == child.owns(id) by {};
                    assert(placed.unshared() == child.unshared());
                    assert(placed.below(mid) == child.below(mid));
                    assert(first.node[i as int].unshared());
                    first.node[i as int].below_grows(len0, mid);
                    assert forall|j: int| 0 <= j < prev.node.len() && j != i implies (#[trigger] prev.node[j])
                        == seen.node[j] by {
                        assert(self.node@[j] == nodes[j]);
                    };
                    assert forall|j: int, id: int|
                        0 <= j < prev.node.len() && (#[trigger] prev.node[j].owns(id)) implies first.node[j].owns(
                        id,
                    ) || low <= id < mid by {
                        assert(seen.node[j].owns(id));
                    };
                    assert forall|j: int| 0 <= j < prev.node.len() implies (#[trigger] prev.node[j]).unshared() by {
                        assert(seen.node[j].unshared());
                    };
                    assert forall|j: int, k: int, id: int|
                        0 <= j < k < prev.node.len() && (#[trigger] prev.node[j].owns(id)) implies !(
                    #[trigger] prev.node[k].owns(id)) by {
                        assert(seen.node[j].owns(id));
                        if prev.node[k].owns(id) {
                            assert(seen.node[k].owns(id));
                        }
                    };
                    assert(first.seats_children(prev, low, mid));
                }
            }
            let child_whole = self.node[i].update(scripts, stage, table, depth - 1);
            whole = whole && child_whole;
            proof {
                if seats {
                    let now = self@;
                    assert(now.node.len() == prev.node.len());
                    assert forall|j: int| 0 <= j < now.node.len() && j != i implies (#[trigger] now.node[j])
                        == prev.node[j] by {
                        assert(self.node@[j] == nodes[j]);
                    };
                    assert(now.node[i as int] == self.node@[i as int]@);
                    first.seats_one_more(
                        prev,
                        now,
                        i as int,
                        len0,
                        low,
                        before.len() as int,
                        table@.len() as int,
                    );
                }
                assert forall|j: int| 0 <= j < i implies (#[trigger] self.node@[j]) == nodes[j] by {};
                if !first.scripted() {
                    assert(placed.refreshed_to(self.node@[i as int]@));
                    assert(first.node[i as int].refreshed_to(self.node@[i as int]@));
                }
                if whole {
                    assert forall|j: int| 0 <= j < i + 1 implies (#[trigger] self.node@[j])@.within(
                        depth - 1,
                    ) by {
                        if j < i {
                            assert(nodes[j]@.within(depth - 1));
                        }
                    };
                } else if whole_so_far {
                    assert(!self.node@[i as int]@.within(depth - 1));
                } else {
                    let j = choose|j: int| 0 <= j < i && !(#[trigger] nodes[j])@.within(depth - 1);
                    assert(!self.node@[j]@.within(depth - 1));
                }
            }
            proof {
                Renders::grown_is_transitive(table0, before, table@);
                assert(self.render_id == own);
                let _ = before[own->0 as int];
                assert(self@.housed(table@));
                if whole {
                    assert forall|j: int| 0 <= j < i + 1 implies (#[trigger] self.node@[j])@.housed_all(
                        table@,
                    ) by {
                        if j < i {
                            self.node@[j]@.housed_persists(before, table@);
                        }
                    };
                }
            }
            i += 1;
        }
        proof {
            assert forall|k: int| 0 <= k < n implies (#[trigger] self@.node[k]) == self.node@[k]@ by {};
            if whole {
                assert forall|k: int| 0 <= k < self@.node.len() implies (#[trigger] self@.node[k]).housed_all(
                    table@,
                ) by {
                    assert(self@.node[k] == self.node@[k]@);
                };
                assert forall|k: int| 0 <= k < self@.node.len() implies (#[trigger] self@.node[k]).within(
                    depth - 1,
                ) by {
                    assert(self.node@[k]@.within(depth - 1));
                };
            } else {
                let j = choose|j: int| 0 <= j < n && !(#[trigger] self.node@[j])@.within(depth - 1);
                assert(!self@.node[j].within(depth - 1));
            }
            assert(whole == self@.within(depth as int));
            if !first.scripted() {
                assert forall|k: int| 0 <= k < first.node.len() implies (#[trigger] first.node[k]).refreshed_to(
                    self@.node[k],
                ) by {
                    assert(self@.node[k] == self.node@[k]@);
                };
                assert(first.refreshed_to(self@));
            }
            if seats {
                first.seated(self@, len0, low, table@.len() as int);
            }
        }
        whole
    }

    /// Makes the node and what lies below it ready for the first frame, parents before
    /// children and children in their order: the node's behaviour is called, a node
    /// without a render slot in use gets one, the node's position is resolved, and the
    /// children take their anchor from it.
    ///
    /// The walk is bounded as an update is, and the same holds of it.
    pub fn start<M: Module<B>>(
        &mut self,
        scripts: &M,
        stage: &mut B::Stage,
        table: &mut Renders<B::Vertex>,
        depth: usize,
    ) -> (whole: bool)
        ensures
            Renders::grown(old(table)@, final(table)@),
            final(self)@.housed(final(table)@),
            whole == final(self)@.within(depth as int),
            whole ==> final(self)@.housed_all(final(table)@),
            !old(self)@.scripted() && old(self)@.within(depth as int) ==> whole,
            !old(self)@.scripted() ==> old(self)@.refreshed_to(final(self)@),
            !old(self)@.scripted() && old(self)@.unshared() && old(self)@.below(old(table)@.len() as int)
                ==> {
                &&& final(self)@.unshared()
                &&& final(self)@.below(final(table)@.len() as int)
                &&& forall|id: int|
                    final(self)@.owns(id) ==> old(self)@.owns(id) || {
                        old(table)@.len() <= id < final(table)@.len()
                    }
            },
        decreases depth,
    {
        let ghost table0 = table@;
        let ghost first = self@;
        if let Some(script) = self.script {
            scripts.start(script, self, stage);
        }
        self.enter(table);
        self.body.place(self.keep.anchor(), stage);
        assert(Renders::grown(table0, table@));
        assert(self@.housed(table@));
        proof {
            if !first.scripted() {
                assert(self@.node =~= first.node);
                assert forall|k: int| 0 <= k < first.node.len() implies (#[trigger] first.node[k]).refreshed_to(
                    self@.node[k],
                ) by {
                    first.node[k].refreshed_to_itself();
                };
                assert(first.refreshed_to(self@));
            }
        }
        let ghost len0 = table0.len() as int;
        let ghost low = table@.len() as int;
        let ghost seats = !first.scripted() && first.unshared() && first.below(len0);
        proof {
            if seats {
                first.seats_own_children(self@, low);
                first.seated(self@, len0, low, low);
            }
        }
        let n = self.node.len();
        if n == 0 {
            return true;
        }
        if depth == 0 {
            return false;
        }
        let mut whole = true;
        let mut i: usize = 0;
        while i < n
            invariant
                i <= n,
                n == self.node@.len(),
                depth > 0,
                table0 == old(table)@,
                Renders::grown(table0, table@),
                self@.housed(table@),
                whole ==> forall|j: int| 0 <= j < i ==> (#[trigger] self.node@[j])@.housed_all(table@),
                first == old(self)@,
                !first.scripted() ==> n == first.node.len() && forall|j: int|
                    i <= j < n ==> (#[trigger] self.node@[j])@ == first.node[j],
                !first.scripted() ==> {
                    &&& self.name@ == first.name
                    &&& self.keep == first.keep
                    &&& self.visible == first.visible
                    &&& self.script == first.script
                    &&& self.touch_id == first.touch_id
                    &&& self.shown == first.shown
                    &&& hash_view(self.hash) == first.hash
                    &&& self.draw_update.rank() >= first.draw_update.rank()
                    &&& self.render_id == first.render_id || self.draw_update == DrawUpdate::Create
                    &&& forall|j: int|
                        0 <= j < i ==> (#[trigger] first.node[j]).refreshed_to(self.node@[j]@)
                },
                !first.scripted() && first.within(depth as int) ==> whole,
                whole <==> forall|j: int| 0 <= j < i ==> (#[trigger] self.node@[j])@.within(depth - 1),
                len0 == table0.len(),
                seats == (!first.scripted() && first.unshared() && first.below(len0)),
                seats ==> {
                    &&& len0 <= low <= table@.len()
                    &&& first.seats_children(self@, low, table@.len() as int)
                    &&& (self.render_id == first.render_id) || (self@.has_slot(len0) && low == len0 + 1)
                },
            decreases n - i,
        {
            let ghost before = table@;
            let ghost own = self.render_id;
            proof {
                if !first.scripted() {
                    let child = self.node@[i as int]@;
                    if child.scripted() {
                        assert(first.node[i as int].scripted());
                    }
                    if first.within(depth as int) {
                        assert(first.node[i as int].within(depth - 1));
                    }
                }
            }
            let ghost child = self.node@[i as int]@;
            let ghost nodes = self.node@;
            let ghost whole_so_far = whole;
            let ghost seen = self@;
            self.node[i].body.follow(&self.body);
            proof {
                let placed = self.node@[i as int]@;
                assert(placed.node =~= child.node);
                assert(placed.scripted() == child.scripted());
                assert(placed.within(depth - 1) == child.within(depth - 1));
            }
            let ghost placed = self.node@[i as int]@;
            let ghost prev = self@;
            proof {
                if seats {
                    let mid = before.len() as int;
                    assert(prev.node[i as int] == placed);
                    assert(seen.node[i as int] == child);
                    assert(placed.render_id == child.render_id);
                    assert forall|id: int| placed.owns(id) == child.owns(id) by {};
                    assert(placed.unshared() == child.unshared());
                    assert(placed.below(mid) == child.below(mid));
                    assert(first.node[i as int].unshared());
                    first.node[i as int].below_grows(len0, mid);
                    assert forall|j: int| 0 <= j < prev.node.len() && j != i implies (#[trigger] prev.node[j])
                        == seen.node[j] by {
                        assert(self.node@[j] == nodes[j]);
                    };
                    assert forall|j: int, id: int|
                        0 <= j < prev.node.len() && (#[trigger] prev.node[j].owns(id)) implies first.node[j].owns(
                        id,
                    ) || low <= id < mid by {
                        assert(seen.node[j].owns(id));
                    };
                    assert forall|j: int| 0 <= j < prev.node.len() implies (#[trigger] prev.node[j]).unshared() by {
                        assert(seen.node[j].unshared());
                    };
                    assert forall|j: int, k: int, id: int|
                        0 <= j < k < prev.node.len() && (#[trigger] prev.node[j].owns(id)) implies !(
                    #[trigger] prev.node[k].owns(id)) by {
                        assert(seen.node[j].owns(id));
                        if prev.node[k].owns(id) {
                            assert(seen.node[k].owns(id));
                        }
                    };
                    assert(first.seats_children(prev, low, mid));
                }
            }
            let child_whole = self.node[i].start(scripts, stage, table, depth - 1);
            whole = whole && child_whole;
            proof {
                if seats {
                    let now = self@;
                    assert(now.node.len() == prev.node.len());
                    assert forall|j: int| 0 <= j < now.node.len() && j != i implies (#[trigger] now.node[j])
                        == prev.node[j] by {
                        assert(self.node@[j] == nodes[j]);
                    };
                    assert(now.node[i as int] == self.node@[i as int]@);
                    first.seats_one_more(
                        prev,
                        now,
                        i as int,
                        len0,
                        low,
                        before.len() as int,
                        table@.len() as int,
                    );
                }
                assert forall|j: int| 0 <= j < i implies (#[trigger] self.node@[j]) == nodes[j] by {};
                if !first.scripted() {
                    assert(placed.refreshed_to(self.node@[i as int]@));
                    assert(first.node[i as int].refreshed_to(self.node@[i as int]@));
                }
                if whole {
                    assert forall|j: int| 0 <= j < i + 1 implies (#[trigger] self.node@[j])@.within(
                        depth - 1,
                    ) by {
                        if j < i {
                            assert(nodes[j]@.within(depth - 1));
                        }
                    };
                } else if whole_so_far {
                    assert(!self.node@[i as int]@.within(depth - 1));
                } else {
                    let j = choose|j: int| 0 <= j < i && !(#[trigger] nodes[j])@.within(depth - 1);
                    assert(!self.node@[j]@.within(depth - 1));
                }
            }
            proof {
                Renders::grown_is_transitive(table0, before, table@);
                assert(self.render_id == own);
                let _ = before[own->0 as int];
                assert(self@.housed(table@));
                if whole {
                    assert forall|j: int| 0 <= j < i + 1 implies (#[trigger] self.node@[j])@.housed_all(
                        table@,
                    ) by {
                        if j < i {
                            self.node@[j]@.housed_persists(before, table@);
                        }
                    };
                }
            }
            i += 1;
        }
        proof {
            assert forall|k: int| 0 <= k < n implies (#[trigger] self@.node[k]) == self.node@[k]@ by {};
            if whole {
                assert forall|k: int| 0 <= k < self@.node.len() implies (#[trigger] self@.node[k]).housed_all(
                    table@,
                ) by {
                    assert(self@.node[k] == self.node@[k]@);
                };
                assert forall|k: int| 0 <= k < self@.node.len() implies (#[trigger] self@.node[k]).within(
                    depth - 1,
                ) by {
                    assert(self.node@[k]@.within(depth - 1));
                };
            } else {
                let j = choose|j: int| 0 <= j < n && !(#[trigger] self.node@[j])@.within(depth - 1);
                assert(!self@.node[j].within(depth - 1));
            }
            assert(whole == self@.within(depth as int));
            if !first.scripted() {
                assert forall|k: int| 0 <= k < first.node.len() implies (#[trigger] first.node[k]).refreshed_to(
                    self@.node[k],
                ) by {
                    assert(self@.node[k] == self.node@[k]@);
                };
                assert(first.refreshed_to(self@));
            }
            if seats {
                first.seated(self@, len0, low, table@.len() as int);
            }
        }
        whole
    }
}

/// A node under construction. The setters hand the builder on, so that a node is
/// written down as one chain.
pub struct CreateNode2d<B> {
    pub node2d: Node2d<B>,
}

impl<B> CreateNode2d<B> {
    /// A visible node called `name` with no children and no behaviour, placed from its
    /// parent's anchor. It has no render slot yet, and is tagged so that its first draw
    /// builds its geometry.
    pub fn new(name: &str, body: B) -> (r: Self)
        ensures
            r.node2d@ == (NodeView {
                name: name@,
                body: body,
                keep: Keep::Canvas,
                visible: true,
                node: seq![],
                script: None,
                touch_id: None,
                render_id: None,
                draw_update: DrawUpdate::Create,
                shown: true,
                hash: seq![],
            }),
    {
        let r = CreateNode2d {
            node2d: Node2d {
                name: name.to_owned(),
                body: body,
                keep: Keep::Canvas,
                visible: true,
                node: Vec::new(),
                script: None,
                touch_id: None,
                render_id: None,
                draw_update: DrawUpdate::Create,
                shown: true,
                hash: Vec::new(),
            },
        };
        assert(r.node2d@.node =~= Seq::<NodeView<B>>::empty());
        assert(r.node2d@.hash =~= Seq::<(Seq<char>, Seq<u8>)>::empty());
        r
    }

    /// Appends children, as they were built: a tree under construction is in no table,
    /// and its nodes get their render slots when the tree is started or updated.
    pub fn node(self, node: Vec<CreateNode2d<B>>) -> (r: Self)
        ensures
            r.node2d@ == (NodeView {
                node: self.node2d@.node + Seq::new(node@.len(), |i: int| node@[i].node2d@),
                ..self.node2d@
            }),
    {
        let mut r = self;
        r.node2d.append(node);
        r
    }

    /// Attaches the behaviour that `script` names.
    pub fn script(self, script: usize) -> (r: Self)
        ensures
            r.node2d@ == (NodeView { script: Some(script), ..self.node2d@ }),
    {
        let mut r = self;
        r.node2d.script = Some(script);
        assert(r.node2d@.node =~= self.node2d@.node);
        r
    }

    /// Sets whether the node is drawn.
    pub fn visible(self, sel: bool) -> (r: Self)
        ensures
            r.node2d@ == (NodeView { visible: sel, ..self.node2d@ }),
    {
        let mut r = self;
        r.node2d.visible = sel;
        assert(r.node2d@.node =~= self.node2d@.node);
        r
    }

    /// Sets what the node's position is measured from.
    pub fn keep(self, keep: Keep) -> (r: Self)
        ensures
            r.node2d@ == (NodeView { keep: keep, ..self.node2d@ }),
    {
        let mut r = self;
        r.node2d.keep = keep;
        assert(r.node2d@.node =~= self.node2d@.node);
        r
    }

    /// Keeps `value` under `key` with the node.
    pub fn hash(self, key: &str, value: Vec<u8>) -> (r: Self)
        ensures
            self.node2d@.keeps_nothing(key@) ==> r.node2d@ == (NodeView {
                hash: self.node2d@.hash.push((key@, value@)),
                ..self.node2d@
            }),
            forall|k: int|
                self.node2d@.kept_at(key@, k) ==> r.node2d@ == (NodeView {
                    hash: self.node2d@.hash.update(k, (key@, value@)),
                    ..self.node2d@
                }),
            exists|k: int| r.node2d@.kept_at(key@, k) && r.node2d@.hash[k].1 == value@,
    {
        let mut r = self;
        r.node2d.set_hash(key, value);
        r
    }

    /// The node that was built.
    pub fn get_node(self) -> (r: Node2d<B>)
        ensures
            r == self.node2d,
    {
        self.node2d
    }
}

} // verus!
