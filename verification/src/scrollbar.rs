//! Where scrollbars are and what dragging their thumbs means.

use crate::geometry::{contains, Panel, Rect};
use crate::numbers;
use crate::numbers::{max_of, min_of, saturating_product, saturating_u16};
use vstd::prelude::*;

verus! {

/// The direction in which a scrollbar moves the content.
#[derive(Clone, Copy, Debug, PartialEq, Eq, Structural)]
pub enum ScrollbarAxis {
    Vertical,
    Horizontal,
}

/// A thumb that is being dragged, and where it was taken hold of.
#[derive(Clone, Copy, Debug, PartialEq, Eq, Structural)]
pub struct ScrollbarDrag {
    pub axis: ScrollbarAxis,
    pub grab_offset: usize,
}

/// The cells of a scrollbar.
#[derive(Clone, Copy, Debug, PartialEq, Eq, Structural)]
pub struct ScrollbarGeometry {
    pub bar: Rect,
    pub track_start: u16,
    pub track_length: usize,
    pub thumb_start: usize,
    pub thumb_length: usize,
    pub max_scroll: usize,
}

/// The scrollbars of a content pane.
#[derive(Clone, Copy, Debug, PartialEq, Eq, Structural)]
pub struct ContentScrollbarMetrics {
    pub vertical: Option<ScrollbarGeometry>,
    pub horizontal: Option<ScrollbarGeometry>,
}

/// The length of the viewport that the horizontal thumb stands for: a third, so
/// that the thumb stays short.
pub open spec fn compact_viewport(viewport_length: usize) -> usize {
    numbers::greater((viewport_length / 3) as usize, 1)
}

/// The length of the viewport that the horizontal thumb stands for.
pub fn compact_horizontal_scrollbar_viewport(viewport_length: usize) -> (r: usize)
    ensures
        r == compact_viewport(viewport_length),
{
    max_of(viewport_length / 3, 1)
}

/// The scroll position spread over the whole content, so that the last position
/// is that of the last line.
pub open spec fn render_position(
    position: usize,
    max_scroll: usize,
    content_length: usize,
) -> usize {
    if max_scroll == 0 {
        0
    } else {
        (numbers::sat_mul(
            numbers::lesser(position, max_scroll),
            numbers::sat_sub(content_length, 1),
        ) / max_scroll) as usize
    }
}

/// The scroll position spread over the whole content.
pub fn scrollbar_render_position(position: usize, max_scroll: usize, content_length: usize) -> (r:
    usize)
    ensures
        r == render_position(position, max_scroll, content_length),
{
    if max_scroll == 0 {
        0
    } else {
        saturating_product(min_of(position, max_scroll), content_length.saturating_sub(1))
            / max_scroll
    }
}

/// A quotient rounded to the nearest integer, for a divisor that is not zero.
pub open spec fn rounded_share(a: usize, b: usize, whole: usize) -> usize {
    (numbers::sat_add(numbers::sat_mul(a, b), (whole / 2) as usize) / whole) as usize
}

/// The start and length of a thumb on its track.
pub open spec fn thumb_parts(
    content_length: usize,
    viewport_length: usize,
    track_length: usize,
    position: usize,
) -> (usize, usize) {
    let whole = numbers::sat_add(numbers::sat_sub(content_length, 1), viewport_length);
    if track_length == 0 || whole == 0 {
        (0, 0)
    } else {
        let length = numbers::greater(
            numbers::lesser(rounded_share(viewport_length, track_length, whole), track_length),
            1,
        );
        let start = rounded_share(position, track_length, whole);
        (numbers::lesser(start, numbers::sat_sub(track_length, length)), length)
    }
}

/// The start and length of a thumb on its track.
pub fn scrollbar_thumb_parts(
    content_length: usize,
    viewport_length: usize,
    track_length: usize,
    position: usize,
) -> (r: (usize, usize))
    ensures
        r == thumb_parts(content_length, viewport_length, track_length, position),
{
    let whole: usize = content_length.saturating_sub(1).saturating_add(viewport_length);
    if track_length == 0 || whole == 0 {
        return (0, 0);
    }
    let wanted: usize = saturating_product(viewport_length, track_length).saturating_add(whole / 2)
        / whole;
    let length: usize = max_of(min_of(wanted, track_length), 1);
    let start: usize = saturating_product(position, track_length).saturating_add(whole / 2) / whole;
    (min_of(start, track_length.saturating_sub(length)), length)
}

/// A thumb covers at least one cell and never leaves its track.
pub proof fn thumb_stays_on_track(
    content_length: usize,
    viewport_length: usize,
    track_length: usize,
    position: usize,
)
    requires
        track_length > 0,
        content_length > 1 || viewport_length > 0,
    ensures
        ({
            let (start, length) = thumb_parts(
                content_length,
                viewport_length,
                track_length,
                position,
            );
            &&& 1 <= length
            &&& start + length <= track_length
        }),
{
}

/// The bar of an axis inside an area, the length of its track and where that starts.
pub open spec fn bar_of(axis: ScrollbarAxis, area: Rect) -> Option<(Rect, usize, u16)> {
    match axis {
        ScrollbarAxis::Vertical => if area.height >= 2 {
            Some(
                (
                    Rect::made(
                        numbers::sat_sub16(area.right_edge(), 1),
                        area.y,
                        1,
                        area.height,
                    ),
                    (area.height - 2) as usize,
                    numbers::sat_add16(area.y, 1),
                ),
            )
        } else {
            None
        },
        ScrollbarAxis::Horizontal => if area.width >= 2 {
            Some(
                (
                    Rect::made(
                        area.x,
                        numbers::sat_sub16(area.bottom_edge(), 1),
                        area.width,
                        1,
                    ),
                    (area.width - 2) as usize,
                    numbers::sat_add16(area.x, 1),
                ),
            )
        } else {
            None
        },
    }
}

/// The scrollbar of an axis; none where all content is in view or there is no room.
pub open spec fn geometry_of(
    axis: ScrollbarAxis,
    area: Rect,
    content_length: usize,
    viewport_length: usize,
    thumb_viewport_length: usize,
    position: usize,
) -> Option<ScrollbarGeometry> {
    if area.vacant() || content_length <= viewport_length || thumb_viewport_length == 0 {
        None
    } else {
        match bar_of(axis, area) {
            Some((bar, track_length, track_start)) => if track_length == 0 {
                None
            } else {
                let max_scroll = (content_length - viewport_length) as usize;
                let (thumb_start, thumb_length) = thumb_parts(
                    content_length,
                    thumb_viewport_length,
                    track_length,
                    render_position(
                        numbers::lesser(position, max_scroll),
                        max_scroll,
                        content_length,
                    ),
                );
                Some(
                    ScrollbarGeometry {
                        bar,
                        track_start,
                        track_length,
                        thumb_start,
                        thumb_length,
                        max_scroll,
                    },
                )
            },
            None => None,
        }
    }
}

/// Computes the scrollbar of an axis.
pub fn scrollbar_geometry(
    axis: ScrollbarAxis,
    area: Rect,
    content_length: usize,
    viewport_length: usize,
    thumb_viewport_length: usize,
    position: usize,
) -> (r: Option<ScrollbarGeometry>)
    ensures
        r == geometry_of(
            axis,
            area,
            content_length,
            viewport_length,
            thumb_viewport_length,
            position,
        ),
{
    if area.is_empty() || content_length <= viewport_length || thumb_viewport_length == 0 {
        return None;
    }
    let bar: Rect;
    let track_length: usize;
    let track_start: u16;
    match axis {
        ScrollbarAxis::Vertical => {
            if area.height < 2 {
                return None;
            }
            bar = Rect::new(area.right().saturating_sub(1), area.y, 1, area.height);
            track_length = (area.height - 2) as usize;
            track_start = area.y.saturating_add(1);
        },
        ScrollbarAxis::Horizontal => {
            if area.width < 2 {
                return None;
            }
            bar = Rect::new(area.x, area.bottom().saturating_sub(1), area.width, 1);
            track_length = (area.width - 2) as usize;
            track_start = area.x.saturating_add(1);
        },
    }
    if track_length == 0 {
        return None;
    }
    let max_scroll: usize = content_length - viewport_length;
    let shown: usize = scrollbar_render_position(
        min_of(position, max_scroll),
        max_scroll,
        content_length,
    );
    let (thumb_start, thumb_length) = scrollbar_thumb_parts(
        content_length,
        thumb_viewport_length,
        track_length,
        shown,
    );
    Some(
        ScrollbarGeometry {
            bar,
            track_start,
            track_length,
            thumb_start,
            thumb_length,
            max_scroll,
        },
    )
}

/// The scrollbars of a panel whose content has the given rows and columns.
pub open spec fn panel_scrollbars(
    panel: Panel,
    dimensions: (usize, usize),
    scroll_y: usize,
    scroll_x: usize,
) -> ContentScrollbarMetrics {
    ContentScrollbarMetrics {
        vertical: geometry_of(
            ScrollbarAxis::Vertical,
            panel.rows,
            dimensions.0,
            panel.rows.height as usize,
            panel.rows.height as usize,
            scroll_y,
        ),
        horizontal: geometry_of(
            ScrollbarAxis::Horizontal,
            panel.scrollbar,
            dimensions.1,
            panel.rows.width as usize,
            compact_viewport(panel.rows.width as usize),
            scroll_x,
        ),
    }
}

/// Computes the scrollbars of a panel.
pub fn scrollbars_of(panel: Panel, dimensions: (usize, usize), scroll_y: usize, scroll_x: usize)
    -> (r: ContentScrollbarMetrics)
    ensures
        r == panel_scrollbars(panel, dimensions, scroll_y, scroll_x),
{
    ContentScrollbarMetrics {
        vertical: scrollbar_geometry(
            ScrollbarAxis::Vertical,
            panel.rows,
            dimensions.0,
            panel.rows.height as usize,
            panel.rows.height as usize,
            scroll_y,
        ),
        horizontal: scrollbar_geometry(
            ScrollbarAxis::Horizontal,
            panel.scrollbar,
            dimensions.1,
            panel.rows.width as usize,
            compact_horizontal_scrollbar_viewport(panel.rows.width as usize),
            scroll_x,
        ),
    }
}

/// The drag that begins when the button goes down on the thumb of a scrollbar.
pub open spec fn grabbed(
    axis: ScrollbarAxis,
    geometry: Option<ScrollbarGeometry>,
    column: u16,
    row: u16,
) -> Option<ScrollbarDrag> {
    match geometry {
        Some(g) => {
            let pointer = match axis {
                ScrollbarAxis::Vertical => row,
                ScrollbarAxis::Horizontal => column,
            };
            let start = numbers::sat_add16(g.track_start, numbers::clipped16(g.thumb_start));
            let end = numbers::sat_add16(start, numbers::clipped16(g.thumb_length));
            if g.bar.covers(column, row) && start <= pointer && pointer < end {
                Some(ScrollbarDrag { axis, grab_offset: (pointer - start) as usize })
            } else {
                None
            }
        },
        None => None,
    }
}

/// The drag that begins on either scrollbar; the vertical one is asked first.
pub open spec fn grabbed_any(
    metrics: ContentScrollbarMetrics,
    column: u16,
    row: u16,
) -> Option<ScrollbarDrag> {
    match grabbed(ScrollbarAxis::Vertical, metrics.vertical, column, row) {
        Some(drag) => Some(drag),
        None => grabbed(ScrollbarAxis::Horizontal, metrics.horizontal, column, row),
    }
}

fn grab(axis: ScrollbarAxis, geometry: Option<ScrollbarGeometry>, column: u16, row: u16) -> (r:
    Option<ScrollbarDrag>)
    ensures
        r == grabbed(axis, geometry, column, row),
{
    match geometry {
        Some(g) => {
            if !contains(g.bar, column, row) {
                return None;
            }
            let pointer: u16 = match axis {
                ScrollbarAxis::Vertical => row,
                ScrollbarAxis::Horizontal => column,
            };
            let start: u16 = g.track_start.saturating_add(saturating_u16(g.thumb_start));
            let end: u16 = start.saturating_add(saturating_u16(g.thumb_length));
            if pointer >= start && pointer < end {
                Some(ScrollbarDrag { axis, grab_offset: (pointer - start) as usize })
            } else {
                None
            }
        },
        None => None,
    }
}

/// The drag that begins where the button goes down, if that is on a thumb.
pub fn grab_any(metrics: ContentScrollbarMetrics, column: u16, row: u16) -> (r: Option<
    ScrollbarDrag,
>)
    ensures
        r == grabbed_any(metrics, column, row),
{
    match grab(ScrollbarAxis::Vertical, metrics.vertical, column, row) {
        Some(drag) => Some(drag),
        None => grab(ScrollbarAxis::Horizontal, metrics.horizontal, column, row),
    }
}

/// A cell lies on either scrollbar.
pub open spec fn on_bars(metrics: ContentScrollbarMetrics, column: u16, row: u16) -> bool {
    (metrics.vertical matches Some(g) && g.bar.covers(column, row)) || (
    metrics.horizontal matches Some(g) && g.bar.covers(column, row))
}

/// Whether a cell lies on either scrollbar.
pub fn hits_bars(metrics: ContentScrollbarMetrics, column: u16, row: u16) -> (r: bool)
    ensures
        r == on_bars(metrics, column, row),
{
    let vertical: bool = match metrics.vertical {
        Some(g) => contains(g.bar, column, row),
        None => false,
    };
    let horizontal: bool = match metrics.horizontal {
        Some(g) => contains(g.bar, column, row),
        None => false,
    };
    vertical || horizontal
}

/// The scroll position that a dragged thumb stands for.
pub open spec fn dragged_scroll(
    g: ScrollbarGeometry,
    grab_offset: usize,
    pointer: u16,
) -> usize {
    let room = numbers::sat_sub(g.track_length, g.thumb_length);
    let start = numbers::lesser(
        numbers::sat_sub(numbers::sat_sub16(pointer, g.track_start) as usize, grab_offset),
        room,
    );
    if room == 0 {
        0
    } else {
        rounded_share(start, g.max_scroll, room)
    }
}

/// The scroll position that a dragged thumb stands for.
pub fn scroll_of_drag(g: ScrollbarGeometry, grab_offset: usize, pointer: u16) -> (r: usize)
    ensures
        r == dragged_scroll(g, grab_offset, pointer),
{
    let room: usize = g.track_length.saturating_sub(g.thumb_length);
    let start: usize = min_of(
        (pointer.saturating_sub(g.track_start) as usize).saturating_sub(grab_offset),
        room,
    );
    if room == 0 {
        0
    } else {
        saturating_product(start, g.max_scroll).saturating_add(room / 2) / room
    }
}

proof fn lemma_rounded_whole(a: int, n: int)
    requires
        n > 0,
        a >= 0,
    ensures
        (n * a + n / 2) / n == a,
{
    assert(n * a == a * n) by (nonlinear_arith);
    vstd::arithmetic::div_mod::lemma_fundamental_div_mod_converse(
        n * a + n / 2,
        n,
        a,
        n / 2,
    );
}

/// A thumb dragged to the end of its track scrolls to the end of the content, and
/// one dragged to the start scrolls to the start.
pub proof fn drag_reaches_both_ends(g: ScrollbarGeometry, grab_offset: usize, pointer: u16)
    requires
        g.thumb_length < g.track_length,
        (g.track_length - g.thumb_length) * g.max_scroll + g.track_length <= usize::MAX,
    ensures
        pointer - g.track_start - grab_offset >= g.track_length - g.thumb_length
            ==> dragged_scroll(g, grab_offset, pointer) == g.max_scroll,
        pointer <= g.track_start + grab_offset ==> dragged_scroll(g, grab_offset, pointer) == 0,
{
    let room = (g.track_length - g.thumb_length) as usize;
    lemma_rounded_whole(g.max_scroll as int, room as int);
    assert(0 * g.max_scroll == 0);
    assert((room / 2) / room == 0) by (nonlinear_arith)
        requires
            room > 0,
    ;
}

} // verus!
