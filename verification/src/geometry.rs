//! Rectangles on the terminal screen and how the screen is divided.

use crate::numbers;
use ratatui::layout::{Constraint, Direction, Layout};
use vstd::prelude::*;

verus! {

/// A rectangle of terminal cells.
#[derive(Clone, Copy, Debug, PartialEq, Eq, Structural)]
pub struct Rect {
    pub x: u16,
    pub y: u16,
    pub width: u16,
    pub height: u16,
}

impl Rect {
    /// The column after the last one.
    pub open spec fn right_edge(self) -> u16 {
        numbers::sat_add16(self.x, self.width)
    }

    /// The row after the last one.
    pub open spec fn bottom_edge(self) -> u16 {
        numbers::sat_add16(self.y, self.height)
    }

    /// The rectangle covers no cell.
    pub open spec fn vacant(self) -> bool {
        self.width == 0 || self.height == 0
    }

    /// A cell lies in the rectangle.
    pub open spec fn covers(self, column: u16, row: u16) -> bool {
        self.x <= column && column < self.right_edge() && self.y <= row && row < self.bottom_edge()
    }

    /// No part of the rectangle lies outside of an area.
    pub open spec fn within(self, area: Rect) -> bool {
        &&& area.x <= self.x && self.right_edge() <= area.right_edge()
        &&& area.y <= self.y && self.bottom_edge() <= area.bottom_edge()
    }

    /// A rectangle whose far corner stays within the range of coordinates.
    pub open spec fn made(x: u16, y: u16, width: u16, height: u16) -> Rect {
        Rect {
            x,
            y,
            width: (numbers::sat_add16(x, width) - x) as u16,
            height: (numbers::sat_add16(y, height) - y) as u16,
        }
    }

    /// What a border of one cell on every side leaves.
    pub open spec fn inside_border(self) -> Rect {
        Rect {
            x: if numbers::sat_add16(self.x, 1) <= self.right_edge() {
                numbers::sat_add16(self.x, 1)
            } else {
                self.right_edge()
            },
            y: if numbers::sat_add16(self.y, 1) <= self.bottom_edge() {
                numbers::sat_add16(self.y, 1)
            } else {
                self.bottom_edge()
            },
            width: numbers::sat_sub16(self.width, 2),
            height: numbers::sat_sub16(self.height, 2),
        }
    }

    pub fn new(x: u16, y: u16, width: u16, height: u16) -> (r: Rect)
        ensures
            r == Rect::made(x, y, width, height),
    {
        Rect { x, y, width: x.saturating_add(width) - x, height: y.saturating_add(height) - y }
    }

    pub fn right(&self) -> (r: u16)
        ensures
            r == self.right_edge(),
    {
        self.x.saturating_add(self.width)
    }

    pub fn bottom(&self) -> (r: u16)
        ensures
            r == self.bottom_edge(),
    {
        self.y.saturating_add(self.height)
    }

    pub fn is_empty(&self) -> (r: bool)
        ensures
            r == self.vacant(),
    {
        self.width == 0 || self.height == 0
    }
}

/// Whether a cell lies in a rectangle.
pub fn contains(area: Rect, column: u16, row: u16) -> (r: bool)
    ensures
        r == area.covers(column, row),
{
    column >= area.x && column < area.right() && row >= area.y && row < area.bottom()
}

/// Calls `ratatui::widgets::Block::inner` on a block with all four borders and
/// without title or padding, which takes one cell off every side of the area.
#[verifier::external_body]
pub(crate) fn block_inner(area: Rect) -> (r: Rect)
    ensures
        r == area.inside_border(),
{
    let outer = ratatui::layout::Rect {
        x: area.x,
        y: area.y,
        width: area.width,
        height: area.height,
    };
    let inner = ratatui::widgets::Block::bordered().inner(outer);
    Rect { x: inner.x, y: inner.y, width: inner.width, height: inner.height }
}

/// The area inside a bordered panel.
pub fn bordered_inner(area: Rect) -> (r: Rect)
    ensures
        r == area.inside_border(),
{
    block_inner(area)
}

/// A wish for the size of one part of a divided area.
#[derive(Clone, Copy, Debug, PartialEq, Eq, Structural)]
pub enum Extent {
    Length(u16),
    Min(u16),
    Percentage(u16),
}

/// The parts are a division of an area that `ratatui::layout::Layout::split` gives for
/// these wishes. Its constraint solver walks hash maps, so that where wishes conflict more
/// than one division may be possible.
pub uninterp spec fn splits(
    vertical: bool,
    extents: Seq<Extent>,
    area: Rect,
    parts: Seq<Rect>,
) -> bool;

/// Calls `ratatui::layout::Layout::split` without margin or spacing, whose divisions
/// `splits` names. There is one part for every wish, and none reaches out of the area; parts
/// of a vertical division keep the columns of the area, and parts of a horizontal one its
/// rows. How far the parts reach in the direction of the division is up to the constraint
/// solver and is not stated.
#[verifier::external_body]
pub(crate) fn split_area(vertical: bool, extents: &Vec<Extent>, area: Rect) -> (r: Vec<Rect>)
    ensures
        splits(vertical, extents@, area, r@),
        r@.len() == extents@.len(),
        forall|i: int|
            0 <= i < r@.len() ==> if vertical {
                (#[trigger] r@[i]).x == area.x && r@[i].width == area.width
            } else {
                r@[i].y == area.y && r@[i].height == area.height
            },
        forall|i: int| 0 <= i < r@.len() ==> (#[trigger] r@[i]).within(area),
{
    let wishes = extents.iter().map(|extent| match extent {
        Extent::Length(n) => Constraint::Length(*n),
        Extent::Min(n) => Constraint::Min(*n),
        Extent::Percentage(n) => Constraint::Percentage(*n),
    });
    let direction = if vertical { Direction::Vertical } else { Direction::Horizontal };
    let (x, y, width, height) = (area.x, area.y, area.width, area.height);
    let whole = ratatui::layout::Rect { x, y, width, height };
    let parts = Layout::default().direction(direction).constraints(wishes).split(whole);
    parts.iter().map(|p| Rect { x: p.x, y: p.y, width: p.width, height: p.height }).collect()
}

/// A bordered panel with scrolling content: the rows of the content and the row
/// of the horizontal scrollbar below them.
#[derive(Clone, Copy, Debug, PartialEq, Eq, Structural)]
pub struct Panel {
    pub area: Rect,
    pub rows: Rect,
    pub scrollbar: Rect,
}

impl Panel {
    /// The area inside the border is divided into rows for the content and one row for the
    /// scrollbar, which keep its columns.
    pub open spec fn divides(self, area: Rect) -> bool {
        let inner = area.inside_border();
        &&& self.area == area
        &&& splits(
            true,
            seq![Extent::Min(1), Extent::Length(1)],
            inner,
            seq![self.rows, self.scrollbar],
        )
        &&& self.rows.x == inner.x
        &&& self.rows.width == inner.width
        &&& self.scrollbar.x == inner.x
        &&& self.scrollbar.width == inner.width
        &&& self.rows.within(inner)
        &&& self.scrollbar.within(inner)
    }
}

/// Divides a bordered panel into its content and its horizontal scrollbar.
pub fn panel_of(area: Rect) -> (r: Panel)
    ensures
        r.divides(area),
{
    let inner = bordered_inner(area);
    let mut extents: Vec<Extent> = Vec::new();
    extents.push(Extent::Min(1));
    extents.push(Extent::Length(1));
    let parts = split_area(true, &extents, inner);
    assert(extents@ =~= seq![Extent::Min(1), Extent::Length(1)]);
    assert(parts@ =~= seq![parts@[0], parts@[1]]);
    Panel { area, rows: parts[0], scrollbar: parts[1] }
}

/// The divisions of the whole screen that the layout chooses from.
#[derive(Clone, Copy, Debug, PartialEq, Eq, Structural)]
pub struct Screen {
    pub area: Rect,
    pub tabs: Rect,
    pub body: Rect,
    pub status: Rect,
    pub left: Rect,
    pub right: Rect,
    pub body_panel: Panel,
    pub right_panel: Panel,
}

impl Screen {
    /// The screen is divided into a row of tabs, the body and a row of status, and the body
    /// into columns; the parts keep the columns or rows of what they divide.
    pub open spec fn divides(self, area: Rect) -> bool {
        &&& self.area == area
        &&& splits(
            true,
            seq![Extent::Length(1), Extent::Min(2), Extent::Length(1)],
            area,
            seq![self.tabs, self.body, self.status],
        )
        &&& splits(
            false,
            seq![Extent::Percentage(36), Extent::Percentage(64)],
            self.body,
            seq![self.left, self.right],
        )
        &&& self.tabs.x == area.x && self.tabs.width == area.width
        &&& self.body.x == area.x && self.body.width == area.width
        &&& self.status.x == area.x && self.status.width == area.width
        &&& self.left.y == self.body.y && self.left.height == self.body.height
        &&& self.right.y == self.body.y && self.right.height == self.body.height
        &&& self.tabs.within(area) && self.body.within(area) && self.status.within(area)
        &&& self.left.within(self.body) && self.right.within(self.body)
        &&& self.body_panel.divides(self.body)
        &&& self.right_panel.divides(self.right)
    }
}

/// Nothing is shown outside of the screen: neither the parts of the screen nor the content
/// and the scrollbars inside of them.
pub proof fn parts_stay_on_the_screen(screen: Screen, area: Rect)
    requires
        screen.divides(area),
    ensures
        screen.tabs.within(area),
        screen.status.within(area),
        screen.left.within(area),
        screen.right.within(area),
        screen.body_panel.rows.within(area),
        screen.body_panel.scrollbar.within(area),
        screen.right_panel.rows.within(area),
        screen.right_panel.scrollbar.within(area),
{
    assert(screen.body.inside_border().within(screen.body));
    assert(screen.right.inside_border().within(screen.right));
}

/// Divides the screen: one row of tabs, the body and one row of status; the body
/// in columns of about one and two thirds.
pub fn screen_of(area: Rect) -> (r: Screen)
    ensures
        r.divides(area),
{
    let mut rows: Vec<Extent> = Vec::new();
    rows.push(Extent::Length(1));
    rows.push(Extent::Min(2));
    rows.push(Extent::Length(1));
    let vertical = split_area(true, &rows, area);
    let body = vertical[1];
    let mut columns: Vec<Extent> = Vec::new();
    columns.push(Extent::Percentage(36));
    columns.push(Extent::Percentage(64));
    let horizontal = split_area(false, &columns, body);
    let right = horizontal[1];
    proof {
        assert(rows@ =~= seq![Extent::Length(1), Extent::Min(2), Extent::Length(1)]);
        assert(vertical@ =~= seq![vertical@[0], vertical@[1], vertical@[2]]);
        assert(columns@ =~= seq![Extent::Percentage(36), Extent::Percentage(64)]);
        assert(horizontal@ =~= seq![horizontal@[0], horizontal@[1]]);
    }
    Screen {
        area,
        tabs: vertical[0],
        body,
        status: vertical[2],
        left: horizontal[0],
        right,
        body_panel: panel_of(body),
        right_panel: panel_of(right),
    }
}

} // verus!
