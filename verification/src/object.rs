//! The vocabulary shared by nodes and the renderer.

use vstd::prelude::*;

pub mod d2;

verus! {

/// The reference a node's position is measured from.
#[derive(Clone, Copy, PartialEq, Eq, Structural, Debug)]
pub enum Keep {
    /// The position counts from the anchor handed down by the parent node.
    Canvas,
    /// The position counts from the camera.
    Center,
    /// The position counts from the middle of the upper edge of the visible canvas.
    Up,
    Down,
    Left,
    Right,
    LeftUp,
    LeftDown,
    RightUp,
    RightDown,
}

/// What [`Keep`] resolves to: either the parent's anchor, or the camera shifted by the
/// visible half-extent of the canvas, once per axis, in the direction `x` and `y` give
/// (`-1`, `0` or `1`; `y` grows downwards).
#[derive(Clone, Copy, PartialEq, Eq, Structural, Debug)]
pub enum Anchor {
    Parent,
    Screen { x: i8, y: i8 },
}

impl Keep {
    /// Direction along the horizontal axis in which the anchor leaves the camera.
    pub open spec fn side_x(self) -> int {
        match self {
            Keep::Left | Keep::LeftUp | Keep::LeftDown => -1,
            Keep::Right | Keep::RightUp | Keep::RightDown => 1,
            Keep::Canvas | Keep::Center | Keep::Up | Keep::Down => 0,
        }
    }

    /// Direction along the vertical axis in which the anchor leaves the camera.
    pub open spec fn side_y(self) -> int {
        match self {
            Keep::Up | Keep::LeftUp | Keep::RightUp => -1,
            Keep::Down | Keep::LeftDown | Keep::RightDown => 1,
            Keep::Canvas | Keep::Center | Keep::Left | Keep::Right => 0,
        }
    }

    /// The anchor this mode stands for.
    pub open spec fn spec_anchor(self) -> Anchor {
        if self == Keep::Canvas {
            Anchor::Parent
        } else {
            Anchor::Screen { x: self.side_x() as i8, y: self.side_y() as i8 }
        }
    }

    /// Resolves the mode to the reference it measures from.
    pub fn anchor(self) -> (a: Anchor)
        ensures
            a == self.spec_anchor(),
    {
        match self {
            Keep::Canvas => Anchor::Parent,
            Keep::Center => Anchor::Screen { x: 0, y: 0 },
            Keep::Up => Anchor::Screen { x: 0, y: -1 },
            Keep::Down => Anchor::Screen { x: 0, y: 1 },
            Keep::Left => Anchor::Screen { x: -1, y: 0 },
            Keep::Right => Anchor::Screen { x: 1, y: 0 },
            Keep::LeftUp => Anchor::Screen { x: -1, y: -1 },
            Keep::LeftDown => Anchor::Screen { x: -1, y: 1 },
            Keep::RightUp => Anchor::Screen { x: 1, y: -1 },
            Keep::RightDown => Anchor::Screen { x: 1, y: 1 },
        }
    }
}

/// The phase of a pointer event.
#[derive(Clone, Copy, PartialEq, Eq, Structural, Debug)]
pub enum Touch {
    Press,
    Relese,
    Move,
}

/// A keyboard event's key: a typed character or a key of the keyboard.
#[derive(Clone, Copy, Debug)]
pub enum Key {
    Char(char),
    Code(::miniquad::KeyCode),
}

/// How far the GPU's copy of a render slot is behind the slot.
#[derive(Clone, Copy, PartialEq, Eq, Structural, Debug)]
pub enum DrawUpdate {
    /// The buffers on the GPU are current.
    Unchanged,
    /// The contents changed: the existing buffers are to be overwritten.
    Update,
    /// There are no buffers yet, or they no longer fit: new ones are to be made.
    Create,
}

impl DrawUpdate {
    /// The tags in the order of the work they ask for.
    pub open spec fn rank(self) -> nat {
        match self {
            DrawUpdate::Unchanged => 0,
            DrawUpdate::Update => 1,
            DrawUpdate::Create => 2,
        }
    }

    /// The tag that asks for the work of both.
    pub open spec fn join(self, other: DrawUpdate) -> DrawUpdate {
        if self.rank() >= other.rank() {
            self
        } else {
            other
        }
    }

    /// Combines two tags into the one that asks for the work of both.
    pub fn merge(self, other: DrawUpdate) -> (r: DrawUpdate)
        ensures
            r == self.join(other),
    {
        match (self, other) {
            (DrawUpdate::Create, _) => DrawUpdate::Create,
            (_, DrawUpdate::Create) => DrawUpdate::Create,
            (DrawUpdate::Update, _) => DrawUpdate::Update,
            (_, DrawUpdate::Update) => DrawUpdate::Update,
            (DrawUpdate::Unchanged, DrawUpdate::Unchanged) => DrawUpdate::Unchanged,
        }
    }

    /// Whether the tag asks for any work.
    pub fn is_dirty(self) -> (r: bool)
        ensures
            r == (self != DrawUpdate::Unchanged),
    {
        match self {
            DrawUpdate::Unchanged => false,
            _ => true,
        }
    }

    /// Joining tags never loses work: the result ranks at least as high as both, and is
    /// one of the two.
    pub proof fn join_is_upper_bound(a: DrawUpdate, b: DrawUpdate)
        ensures
            a.join(b).rank() >= a.rank(),
            a.join(b).rank() >= b.rank(),
            a.join(b) == a || a.join(b) == b,
            a.join(b) == b.join(a),
            a.join(a) == a,
    {
    }

    /// Joining is associative, so the tag of a run of slots does not depend on how the
    /// run is split.
    pub proof fn join_is_associative(a: DrawUpdate, b: DrawUpdate, c: DrawUpdate)
        ensures
            a.join(b).join(c) == a.join(b.join(c)),
    {
    }
}

#[verifier::external_type_specification]
#[verifier::external_body]
pub struct ExKeyCode(::miniquad::KeyCode);

#[verifier::external_type_specification]
#[verifier::external_body]
pub struct ExKeyMods(::miniquad::KeyMods);

} // verus!
