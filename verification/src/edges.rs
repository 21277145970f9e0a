//! The edges of a window that the mouse can take hold of.

use vstd::prelude::*;

use crate::ids::Direction;

verus! {

/// A set of edges, one bit each.
#[derive(Clone, Copy, Debug, PartialEq, Eq, Structural)]
pub struct ResizeEdge(pub u8);

/// The edges near the mouse. Where it is near two opposite edges, because the
/// window is too small to tell, neither is held.
pub open spec fn near_edges(left: bool, right: bool, top: bool, bottom: bool) -> ResizeEdge {
    let h: int = if left == right {
        0
    } else if left {
        1
    } else {
        2
    };
    let v: int = if top == bottom {
        0
    } else if top {
        4
    } else {
        8
    };
    ResizeEdge((h + v) as u8)
}

impl ResizeEdge {
    pub const LEFT: u8 = 0b0001;

    pub const RIGHT: u8 = 0b0010;

    pub const TOP: u8 = 0b0100;

    pub const BOTTOM: u8 = 0b1000;

    pub open spec fn left(self) -> bool {
        self.0 & 0b0001 != 0
    }

    pub open spec fn right(self) -> bool {
        self.0 & 0b0010 != 0
    }

    pub open spec fn top(self) -> bool {
        self.0 & 0b0100 != 0
    }

    pub open spec fn bottom(self) -> bool {
        self.0 & 0b1000 != 0
    }

    /// Whether the left or the right edge is held.
    pub fn has_horizontal(self) -> (has: bool)
        ensures
            has == (self.left() || self.right()),
    {
        let bits = self.0;
        assert((bits & (0b0001u8 | 0b0010u8) != 0) == (bits & 0b0001u8 != 0 || bits & 0b0010u8 != 0))
            by (bit_vector);
        bits & (Self::LEFT | Self::RIGHT) != 0
    }

    /// Whether the top or the bottom edge is held.
    pub fn has_vertical(self) -> (has: bool)
        ensures
            has == (self.top() || self.bottom()),
    {
        let bits = self.0;
        assert((bits & (0b0100u8 | 0b1000u8) != 0) == (bits & 0b0100u8 != 0 || bits & 0b1000u8 != 0))
            by (bit_vector);
        bits & (Self::TOP | Self::BOTTOM) != 0
    }

    /// Whether no edge is held.
    pub fn is_empty(self) -> (empty: bool)
        ensures
            empty == (self.0 == 0),
    {
        self.0 == 0
    }

    /// The side to which a held left or right edge moves.
    pub fn horizontal_direction(self) -> (direction: Direction)
        ensures
            direction == if self.left() {
                Direction::Left
            } else {
                Direction::Right
            },
    {
        if self.0 & Self::LEFT != 0 {
            Direction::Left
        } else {
            Direction::Right
        }
    }

    /// The side to which a held top or bottom edge moves.
    pub fn vertical_direction(self) -> (direction: Direction)
        ensures
            direction == if self.top() {
                Direction::Up
            } else {
                Direction::Down
            },
    {
        if self.0 & Self::TOP != 0 {
            Direction::Up
        } else {
            Direction::Down
        }
    }

    /// The edges near the mouse. Where it is near two opposite edges, because the
    /// window is too small to tell, neither is held.
    pub fn near(left: bool, right: bool, top: bool, bottom: bool) -> (edges: ResizeEdge)
        ensures
            edges == near_edges(left, right, top, bottom),
            edges.left() == (left && !right),
            edges.right() == (right && !left),
            edges.top() == (top && !bottom),
            edges.bottom() == (bottom && !top),
    {
        let h: u8 = if left && !right {
            Self::LEFT
        } else if right && !left {
            Self::RIGHT
        } else {
            0
        };
        let v: u8 = if top && !bottom {
            Self::TOP
        } else if bottom && !top {
            Self::BOTTOM
        } else {
            0
        };
        assert(((h | v) & 1 != 0) == (h == 1) && ((h | v) & 2 != 0) == (h == 2) && ((h | v) & 4 != 0)
            == (v == 4) && ((h | v) & 8 != 0) == (v == 8) && (h | v) == h + v) by (bit_vector)
            requires
                h == 0 || h == 1 || h == 2,
                v == 0 || v == 4 || v == 8,
        ;
        ResizeEdge(h | v)
    }
}

/// Two opposite edges are never held, so that a resize has one direction on each axis.
pub proof fn law_edges_never_opposite(left: bool, right: bool, top: bool, bottom: bool)
    ensures
        !(near_edges(left, right, top, bottom).left() && near_edges(
            left,
            right,
            top,
            bottom,
        ).right()),
        !(near_edges(left, right, top, bottom).top() && near_edges(
            left,
            right,
            top,
            bottom,
        ).bottom()),
{
    let bits = near_edges(left, right, top, bottom).0;
    assert(!(bits & 1 != 0 && bits & 2 != 0) && !(bits & 4 != 0 && bits & 8 != 0)) by (bit_vector)
        requires
            bits == 0 || bits == 1 || bits == 2 || bits == 4 || bits == 5 || bits == 6 || bits == 8
                || bits == 9 || bits == 10,
    ;
}

} // verus!
