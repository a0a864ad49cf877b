//! Box-layout intent.
//!
//! The runtime only carries a component's layout intent between the update
//! and draw passes; the layout arithmetic itself belongs to the drawing
//! collaborator.

use vstd::prelude::*;

verus! {

/// A size request along one axis.
#[derive(Clone, Copy, Debug, PartialEq, Eq, Structural)]
pub enum Constraint {
    /// Take whatever space is left.
    Fill,
    /// Exactly this many cells.
    Length(u16),
    /// This percentage of the parent's space.
    Percentage(u16),
}

/// The axis children are laid out along.
#[derive(Clone, Copy, Debug, PartialEq, Eq, Structural)]
pub enum Direction {
    Horizontal,
    Vertical,
}

/// One instance's cached layout intent.
#[derive(Clone, Copy, Debug, PartialEq, Eq, Structural)]
pub struct LayoutStyle {
    pub flex_direction: Direction,
    pub gap: u16,
    pub width: Constraint,
    pub height: Constraint,
}

impl LayoutStyle {
    /// The layout intent an instance carries until its behavior sets one:
    /// fill both axes, children stacked vertically, no gap.
    pub open spec fn spec_default() -> LayoutStyle {
        LayoutStyle {
            flex_direction: Direction::Vertical,
            gap: 0,
            width: Constraint::Fill,
            height: Constraint::Fill,
        }
    }
}

impl Default for LayoutStyle {
    fn default() -> (r: LayoutStyle)
        ensures
            r == LayoutStyle::spec_default(),
    {
        LayoutStyle {
            flex_direction: Direction::Vertical,
            gap: 0,
            width: Constraint::Fill,
            height: Constraint::Fill,
        }
    }
}

impl LayoutStyle {
    pub fn get_width(&self) -> (r: Constraint)
        ensures
            r == self.width,
    {
        self.width
    }

    pub fn get_height(&self) -> (r: Constraint)
        ensures
            r == self.height,
    {
        self.height
    }
}

} // verus!
