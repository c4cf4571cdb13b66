//! Trusted bridges to the outside collaborators: human-readable duration
//! formatting, and the terminal cell buffer the renderer draws into.

use vstd::prelude::*;

verus! {

/// The text `humantime` renders for a duration of `secs` whole seconds. The
/// result depends on the seconds alone.
pub uninterp spec fn duration_text_of(secs: u64) -> Seq<char>;

/// Relies on humantime::format_duration: a pure rendering of the duration,
/// never empty (a zero duration renders as "0s").
#[verifier::external_body]
pub fn duration_chars(secs: u64) -> (r: Vec<char>)
    ensures
        r@ == duration_text_of(secs),
        r@.len() > 0,
{
    let text = humantime::format_duration(std::time::Duration::from_secs(secs)).to_string();
    text.chars().collect()
}

/// The terminal cell buffer of the `tui` crate; the renderer only ever
/// writes into it through the trusted helpers below.
#[verifier::external_type_specification]
#[verifier::external_body]
pub struct ExBuffer(tui::buffer::Buffer);

/// A concrete terminal color of the `tui` crate.
#[verifier::external_type_specification]
#[verifier::external_body]
pub struct ExColor(tui::style::Color);

/// The rectangle a buffer covers: its origin and size, as
/// `tui::buffer::Buffer` keeps them in its `area` field.
pub uninterp spec fn buffer_area(b: tui::buffer::Buffer) -> (u16, u16, u16, u16);

/// Relies on tui::buffer::Buffer's public `area` field: the rectangle the
/// buffer covers.
#[verifier::external_body]
pub fn buf_region(buf: &tui::buffer::Buffer) -> (r: (u16, u16, u16, u16))
    ensures
        r == buffer_area(*buf),
{
    (buf.area.x, buf.area.y, buf.area.width, buf.area.height)
}

/// Relies on tui::style::Color: the concrete terminal color for one of the
/// renderer's own colors.
#[verifier::external_body]
pub fn tui_color(c: crate::draw::Tint) -> tui::style::Color {
    match c {
        crate::draw::Tint::Green => tui::style::Color::Green,
        crate::draw::Tint::Yellow => tui::style::Color::Yellow,
        crate::draw::Tint::Red => tui::style::Color::Red,
        crate::draw::Tint::LightRed => tui::style::Color::LightRed,
        crate::draw::Tint::White => tui::style::Color::White,
        crate::draw::Tint::Black => tui::style::Color::Black,
    }
}

/// The symbol one cell of the buffer shows, as its characters.
pub uninterp spec fn buffer_cell(b: tui::buffer::Buffer, x: int, y: int) -> Seq<char>;

/// The background paint of one cell, where it is one of the renderer's own
/// colors; `None` stands for any other color, the terminal default included.
pub uninterp spec fn buffer_bg(b: tui::buffer::Buffer, x: int, y: int) -> Option<crate::draw::Tint>;

/// Relies on tui::buffer::Buffer::get_mut, Cell::set_char and the cell's
/// public color fields: writes one character into the cell at `(x, y)` and
/// recolors it where a color is given; no other cell and nothing else of the
/// buffer changes. The cell must lie strictly inside the coordinate space:
/// tui computes a rectangle's far edges with saturating arithmetic, so the
/// very last coordinate of a buffer reaching it would be rejected there.
#[verifier::external_body]
pub fn put_cell(
    buf: &mut tui::buffer::Buffer,
    x: u16,
    y: u16,
    c: char,
    fg: Option<crate::draw::Tint>,
    bg: Option<crate::draw::Tint>,
)
    requires
        buffer_area(*old(buf)).0 <= x,
        x < buffer_area(*old(buf)).0 + buffer_area(*old(buf)).2,
        buffer_area(*old(buf)).1 <= y,
        y < buffer_area(*old(buf)).1 + buffer_area(*old(buf)).3,
        x < u16::MAX,
        y < u16::MAX,
    ensures
        buffer_area(*final (buf)) == buffer_area(*old(buf)),
        buffer_cell(*final (buf), x as int, y as int) == seq![c],
        buffer_bg(*final (buf), x as int, y as int) == (match bg {
            Some(t) => Some(t),
            None => buffer_bg(*old(buf), x as int, y as int),
        }),
        forall|i: int, j: int|
            !(i == x as int && j == y as int) ==> #[trigger] buffer_cell(*final (buf), i, j)
                == buffer_cell(*old(buf), i, j),
        forall|i: int, j: int|
            !(i == x as int && j == y as int) ==> #[trigger] buffer_bg(*final (buf), i, j)
                == buffer_bg(*old(buf), i, j),
{
    let cell = buf.get_mut(x, y);
    cell.set_char(c);
    if let Some(t) = fg {
        cell.fg = tui_color(t);
    }
    if let Some(t) = bg {
        cell.bg = tui_color(t);
    }
}

/// Relies on tui_react::fill_background: paints the background of every
/// cell of the given rectangle with the given color; symbols and everything
/// outside the rectangle stay as they were. The rectangle's far edges must
/// fit the coordinate space: tui saturates them, so a rectangle reaching
/// past the last coordinate would be silently clipped instead of filled.
#[verifier::external_body]
pub fn fill_region(
    buf: &mut tui::buffer::Buffer,
    x: u16,
    y: u16,
    width: u16,
    height: u16,
    tint: crate::draw::Tint,
)
    requires
        width > 0 && height > 0 ==> buffer_area(*old(buf)).0 <= x && x + width <= buffer_area(
            *old(buf),
        ).0 + buffer_area(*old(buf)).2 && buffer_area(*old(buf)).1 <= y && y + height
            <= buffer_area(*old(buf)).1 + buffer_area(*old(buf)).3,
        width > 0 && height > 0 ==> x + width <= u16::MAX && y + height <= u16::MAX,
    ensures
        buffer_area(*final (buf)) == buffer_area(*old(buf)),
        forall|i: int, j: int|
            x as int <= i < x as int + width as int && y as int <= j < y as int + height as int
                ==> #[trigger] buffer_bg(*final (buf), i, j) == Some(tint),
        forall|i: int, j: int|
            !(x as int <= i < x as int + width as int && y as int <= j < y as int
                + height as int) ==> #[trigger] buffer_bg(*final (buf), i, j) == buffer_bg(
                *old(buf),
                i,
                j,
            ),
        forall|i: int, j: int|
            #[trigger] buffer_cell(*final (buf), i, j) == buffer_cell(*old(buf), i, j),
{
    tui_react::fill_background(tui::layout::Rect { x, y, width, height }, buf, tui_color(tint));
}

} // verus!
