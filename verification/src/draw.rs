//! The rendering pass: tree-connector prefixes, progress bars and spinners,
//! the headline summary, the overflow row and the pane that composes them
//! into a terminal cell buffer.

use crate::ext::{buf_region, buffer_area, buffer_bg, buffer_cell, fill_region, put_cell};
use crate::key::{Key, Level};
use crate::progress::{add_block_eta, progress_format, spec_block_eta, Progress, ProgressState, Value, FRACTION_SCALE};
use crate::text::{chars_vec, decimal_chars, pad_left, push_all, repeat_char, skip_chars, spec_decimal, spec_pad_left, spec_repeat, take_chars};
use crate::viewport::{
    needs_overflow_row, overflow_stats, sanitize_offset, spec_clamped_offset,
    spec_needs_overflow_row, MAX_ROW_PPM,
};
use vstd::prelude::*;

verus! {

/// The colors the renderer uses; the terminal backend maps them to concrete
/// colors.
#[derive(Copy, Clone, Debug, PartialEq, Eq, Structural)]
pub enum Tint {
    Green,
    Yellow,
    Red,
    LightRed,
    White,
    Black,
}

/// How the surrounding application reacts to an interrupt request, shown as
/// a hint in the headline.
#[derive(Copy, Clone, Debug, PartialEq, Eq, Structural)]
pub enum InterruptDrawInfo {
    Instantly,
    Deferred(bool),
}

/// Per-pane state the caller keeps between frames: the scroll offset and the
/// remembered tree column width, which stabilizes the layout across frames.
#[derive(Copy, Clone, Debug, PartialEq, Eq)]
pub struct State {
    pub task_offset: u16,
    pub next_tree_column_width: Option<u16>,
    pub last_tree_column_width: Option<u16>,
}

/// The narrowest tree column worth drawing; below it the tree collapses.
pub const MIN_TREE_WIDTH: u16 = 20;

/// The width of the column line: one cell where it is drawn, none where it
/// is not.
pub open spec fn spec_col(draw_column_line: bool) -> int {
    if draw_column_line {
        1
    } else {
        0
    }
}

/// How many rows of a snapshot of `len` rows a window of `height` rows
/// starting at `offset` shows.
pub open spec fn spec_window_len(len: int, offset: int, height: int) -> int {
    let rest = if len - offset > 0 {
        len - offset
    } else {
        0
    };
    if rest <= height {
        rest
    } else {
        height
    }
}

/// The connector glyph of a row: none on a fresh branch start (no previous
/// row, or a level decrease), a branch fork while the next row continues on
/// the same level, and a last-child elbow otherwise.
pub open spec fn spec_glyph(prev_level: Option<int>, cur: int, next: int) -> Seq<char> {
    match prev_level {
        Some(prev) => if cur >= prev {
            if next == cur {
                seq!['├']
            } else {
                seq!['└']
            }
        } else {
            Seq::empty()
        },
        None => Seq::empty(),
    }
}

/// A level as an optional mathematical integer.
pub open spec fn lift_level(l: Option<Level>) -> Option<int> {
    match l {
        Some(v) => Some(v as int),
        None => None,
    }
}

/// The indentation-plus-connector prefix of a row: the glyph right-justified
/// in a field two cells per level beyond the first.
pub open spec fn spec_level_prefix(prev_level: Option<int>, cur: int, next: int) -> Seq<char> {
    spec_pad_left(
        spec_glyph(prev_level, cur, next),
        2 * (if cur >= 1 {
            cur - 1
        } else {
            0
        }),
    )
}

/// Draw the tree-connector prefix of one row from the three levels the local
/// policy needs: the previous row's, this row's, and the next row's.
pub fn level_prefix(prev_level: Option<Level>, cur_level: Level, next_level: Level) -> (r: Vec<
    char,
>)
    ensures
        r@ == spec_level_prefix(lift_level(prev_level), cur_level as int, next_level as int),
{
    let glyph: Vec<char> = match prev_level {
        Some(prev) => {
            if cur_level >= prev {
                if next_level == cur_level {
                    vec!['├']
                } else {
                    vec!['└']
                }
            } else {
                Vec::new()
            }
        },
        None => Vec::new(),
    };
    let width: u16 = if cur_level >= 1 {
        2 * (cur_level as u16 - 1)
    } else {
        0
    };
    pad_left(glyph.as_slice(), width)
}

/// The whole tree-column text of a row: its connector prefix and its name,
/// blank-separated.
pub open spec fn spec_tree_prefix(
    prev_level: Option<int>,
    cur: int,
    next: int,
    name: Seq<char>,
) -> Seq<char> {
    spec_level_prefix(prev_level, cur, next) + seq![' '] + name + seq![' ']
}

/// Render the tree-column text of one entry.
pub fn to_tree_prefix(entry: &(Key, Value), prev_level: Option<Level>, next_level: Level) -> (r:
    Vec<char>)
    requires
        entry.0.wf(),
    ensures
        r@ == spec_tree_prefix(
            lift_level(prev_level),
            entry.0.spec_level(),
            next_level as int,
            entry.1.name@,
        ),
{
    let cur_level = entry.0.level();
    let mut out = level_prefix(prev_level, cur_level, next_level);
    out.push(' ');
    push_all(&mut out, entry.1.name.as_slice());
    out.push(' ');
    proof {
        assert(out@ =~= spec_tree_prefix(
            lift_level(prev_level),
            entry.0.spec_level(),
            next_level as int,
            entry.1.name@,
        ));
    }
    out
}

/// Cells a bar of `width` columns fills for `step` of `done_at`: the width
/// scaled by the fraction, rounded up and clamped to the width.
pub open spec fn spec_bar_fill(width: int, step: int, done_at: int) -> int {
    let cells = (width * step + done_at - 1) / done_at;
    if cells <= width {
        cells
    } else {
        width
    }
}

/// The filled width of a determinate progress bar.
pub fn bar_fill(width: u16, step: u32, done_at: u32) -> (r: u16)
    requires
        done_at > 0,
    ensures
        r as int == spec_bar_fill(width as int, step as int, done_at as int),
{
    proof {
        assert((width as int) * (step as int) <= 65535int * 4294967295int) by (nonlinear_arith)
            requires
                width <= 65535,
                step <= 4294967295,
        ;
    }
    let num: u64 = width as u64 * step as u64 + (done_at as u64 - 1);
    let cells: u64 = num / (done_at as u64);
    if cells <= width as u64 {
        cells as u16
    } else {
        width
    }
}

/// Cells a bar of `width` columns fills for a fraction given in millionths,
/// rounded up and clamped to the width.
pub open spec fn spec_bar_fill_ppm(width: int, ppm: int) -> int {
    let cells = (width * ppm + FRACTION_SCALE - 1) / FRACTION_SCALE as int;
    if cells <= width {
        cells
    } else {
        width
    }
}

/// The filled width of the overflow summary bar.
pub fn bar_fill_ppm(width: u16, ppm: u64) -> (r: u16)
    requires
        ppm <= MAX_ROW_PPM,
    ensures
        r as int == spec_bar_fill_ppm(width as int, ppm as int),
{
    proof {
        assert((width as int) * (ppm as int) <= 65535int * (MAX_ROW_PPM as int)) by (
        nonlinear_arith)
            requires
                width <= 65535,
                ppm <= MAX_ROW_PPM,
        ;
    }
    let num: u128 = width as u128 * ppm as u128 + (FRACTION_SCALE as u128 - 1);
    let cells: u128 = num / (FRACTION_SCALE as u128);
    if cells <= width as u128 {
        cells as u16
    } else {
        width
    }
}

/// The color of a determinate bar: red when blocked, light red when halted;
/// a running bar is green from a fraction of 0.8 on (five times the step
/// reaching four times the target) and yellow below.
pub open spec fn spec_bar_color(state: ProgressState, step: int, done_at: int) -> Tint {
    match state {
        ProgressState::Blocked(_, _) => Tint::Red,
        ProgressState::Halted(_, _) => Tint::LightRed,
        ProgressState::Running => if 5 * step >= 4 * done_at {
            Tint::Green
        } else {
            Tint::Yellow
        },
    }
}

/// Pick the color of a determinate progress bar.
pub fn bar_color(state: &ProgressState, step: u32, done_at: u32) -> (r: Tint)
    ensures
        r == spec_bar_color(*state, step as int, done_at as int),
{
    match state {
        ProgressState::Blocked(_, _) => Tint::Red,
        ProgressState::Halted(_, _) => Tint::LightRed,
        ProgressState::Running => {
            if 5 * (step as u64) >= 4 * (done_at as u64) {
                Tint::Green
            } else {
                Tint::Yellow
            }
        },
    }
}

/// The color of an indeterminate spinner block: red when blocked, light red
/// when halted, white while running.
pub open spec fn spec_spinner_color(state: ProgressState) -> Tint {
    match state {
        ProgressState::Blocked(_, _) => Tint::Red,
        ProgressState::Halted(_, _) => Tint::LightRed,
        ProgressState::Running => Tint::White,
    }
}

/// Pick the color of an indeterminate spinner block.
pub fn spinner_color(state: &ProgressState) -> (r: Tint)
    ensures
        r == spec_spinner_color(*state),
{
    match state {
        ProgressState::Blocked(_, _) => Tint::Red,
        ProgressState::Halted(_, _) => Tint::LightRed,
        ProgressState::Running => Tint::White,
    }
}

/// The column of a spinner inside its bar: the step shifted by the row's
/// position, so neighbors never tick in lockstep, wrapped at the width.
pub open spec fn spec_spinner_offset(step: int, seed: int, width: int) -> int {
    (step + seed) % width
}

/// Where within a bar of `width` columns the spinner block sits.
pub fn spinner_offset(step: u32, seed: u16, width: u16) -> (r: u16)
    requires
        width > 0,
    ensures
        r as int == spec_spinner_offset(step as int, seed as int, width as int),
        r < width,
{
    ((step as u64 + seed as u64) % width as u64) as u16
}

/// The headline hint for the current interrupt mode.
pub open spec fn spec_interrupt_hint(mode: InterruptDrawInfo) -> Seq<char> {
    match mode {
        InterruptDrawInfo::Instantly => "'q' or CTRL+c to quit"@,
        InterruptDrawInfo::Deferred(requested) => if requested {
            "interrupt requested - please wait"@
        } else {
            "cannot interrupt current operation"@
        },
    }
}

/// How many rows of the suffix starting at `i` are running.
pub open spec fn spec_running_count(rows: Seq<(Key, Value)>, i: int) -> int
    decreases rows.len() - i,
{
    if i < 0 || i >= rows.len() {
        0
    } else {
        (match rows[i].1.progress {
            Some(p) => if p.state is Running {
                1int
            } else {
                0int
            },
            None => 0int,
        }) + spec_running_count(rows, i + 1)
    }
}

/// How many rows of the suffix starting at `i` are blocked or halted.
pub open spec fn spec_blocked_count(rows: Seq<(Key, Value)>, i: int) -> int
    decreases rows.len() - i,
{
    if i < 0 || i >= rows.len() {
        0
    } else {
        (match rows[i].1.progress {
            Some(p) => if p.state is Running {
                0int
            } else {
                1int
            },
            None => 0int,
        }) + spec_blocked_count(rows, i + 1)
    }
}

/// How many rows of the suffix starting at `i` are pure groups.
pub open spec fn spec_group_count(rows: Seq<(Key, Value)>, i: int) -> int
    decreases rows.len() - i,
{
    if i < 0 || i >= rows.len() {
        0
    } else {
        (match rows[i].1.progress {
            Some(_) => 0int,
            None => 1int,
        }) + spec_group_count(rows, i + 1)
    }
}

/// Count the snapshot's rows into running, blocked-or-halted and pure-group
/// buckets in one pass.
pub fn headline_counts(entries: &[(Key, Value)]) -> (r: (usize, usize, usize))
    ensures
        r.0 == spec_running_count(entries@, 0),
        r.1 == spec_blocked_count(entries@, 0),
        r.2 == spec_group_count(entries@, 0),
{
    let n = entries.len();
    let mut running: usize = 0;
    let mut blocked: usize = 0;
    let mut groups: usize = 0;
    let mut i: usize = n;
    while i > 0
        invariant
            i <= n == entries@.len(),
            running as int == spec_running_count(entries@, i as int),
            blocked as int == spec_blocked_count(entries@, i as int),
            groups as int == spec_group_count(entries@, i as int),
            running <= n - i,
            blocked <= n - i,
            groups <= n - i,
        decreases i,
    {
        i = i - 1;
        match &entries[i].1.progress {
            Some(p) => {
                match p.state {
                    ProgressState::Running => {
                        running = running + 1;
                    },
                    _ => {
                        blocked = blocked + 1;
                    },
                }
            },
            None => {
                groups = groups + 1;
            },
        }
    }
    (running, blocked, groups)
}

/// The headline text: the interrupt hint and the right-aligned bucket
/// totals.
pub open spec fn spec_headline(
    mode: InterruptDrawInfo,
    running: int,
    blocked: int,
    groups: int,
    total: int,
) -> Seq<char> {
    seq![' '] + spec_interrupt_hint(mode) + seq![' ', ' '] + spec_pad_left(
        spec_decimal(running),
        3,
    ) + " running + "@ + spec_pad_left(spec_decimal(blocked), 3) + " blocked + "@ + spec_pad_left(
        spec_decimal(groups),
        3,
    ) + " groups = "@ + spec_decimal(total) + seq![' ']
}

/// Render the headline summary text for the whole snapshot.
pub fn headline_text(entries: &[(Key, Value)], interrupt_mode: InterruptDrawInfo) -> (r: Vec<char>)
    ensures
        r@ == spec_headline(
            interrupt_mode,
            spec_running_count(entries@, 0),
            spec_blocked_count(entries@, 0),
            spec_group_count(entries@, 0),
            entries@.len() as int,
        ),
{
    let (running, blocked, groups) = headline_counts(entries);
    let mut out: Vec<char> = Vec::new();
    out.push(' ');
    let hint = match interrupt_mode {
        InterruptDrawInfo::Instantly => chars_vec("'q' or CTRL+c to quit"),
        InterruptDrawInfo::Deferred(requested) => {
            if requested {
                chars_vec("interrupt requested - please wait")
            } else {
                chars_vec("cannot interrupt current operation")
            }
        },
    };
    push_all(&mut out, hint.as_slice());
    out.push(' ');
    out.push(' ');
    let running_text = decimal_chars(running as u64);
    let padded_running = pad_left(running_text.as_slice(), 3);
    push_all(&mut out, padded_running.as_slice());
    let mid1 = chars_vec(" running + ");
    push_all(&mut out, mid1.as_slice());
    let blocked_text = decimal_chars(blocked as u64);
    let padded_blocked = pad_left(blocked_text.as_slice(), 3);
    push_all(&mut out, padded_blocked.as_slice());
    let mid2 = chars_vec(" blocked + ");
    push_all(&mut out, mid2.as_slice());
    let groups_text = decimal_chars(groups as u64);
    let padded_groups = pad_left(groups_text.as_slice(), 3);
    push_all(&mut out, padded_groups.as_slice());
    let mid3 = chars_vec(" groups = ");
    push_all(&mut out, mid3.as_slice());
    let total_text = decimal_chars(entries.len() as u64);
    push_all(&mut out, total_text.as_slice());
    out.push(' ');
    proof {
        assert(out@ =~= spec_headline(
            interrupt_mode,
            spec_running_count(entries@, 0),
            spec_blocked_count(entries@, 0),
            spec_group_count(entries@, 0),
            entries@.len() as int,
        ));
    }
    out
}

/// Draw the headline summary right-aligned into the given row.
pub fn headline(
    entries: &[(Key, Value)],
    interrupt_mode: InterruptDrawInfo,
    buf: &mut tui::buffer::Buffer,
    x: u16,
    y: u16,
    width: u16,
)
    requires
        buffer_area(*old(buf)).0 <= x,
        x as int + width as int <= buffer_area(*old(buf)).0 + buffer_area(*old(buf)).2,
        buffer_area(*old(buf)).1 <= y,
        (y as int) < buffer_area(*old(buf)).1 + buffer_area(*old(buf)).3,
        x as int + width as int <= u16::MAX as int,
        y < u16::MAX,
    ensures
        buffer_area(*final (buf)) == buffer_area(*old(buf)),
        spec_headline_cells(
            *final (buf),
            entries@,
            interrupt_mode,
            x as int,
            y as int,
            width as int,
        ),
        ({
            let text = spec_headline(
                interrupt_mode,
                spec_running_count(entries@, 0),
                spec_blocked_count(entries@, 0),
                spec_group_count(entries@, 0),
                entries@.len() as int,
            );
            let tx = spec_headline_tx(text.len() as int, x as int, width as int);
            let n = if width == 0 {
                0int
            } else {
                spec_text_fit(
                    text.len() as int,
                    x as int + width as int - tx,
                    tx,
                    buffer_area(*old(buf)).0 as int + buffer_area(*old(buf)).2 as int,
                )
            };
            &&& forall|i: int, j: int|
                !(j == y as int && tx <= i < tx + n) ==> #[trigger] buffer_cell(*final (buf), i, j)
                    == buffer_cell(*old(buf), i, j)
            &&& forall|i: int, j: int|
                #[trigger] buffer_bg(*final (buf), i, j) == buffer_bg(*old(buf), i, j)
        }),
{
    if width == 0 {
        return ;
    }
    let text = headline_text(entries, interrupt_mode);
    let tx: u16 = if (text.len() as u64) < width as u64 {
        x + width - (text.len() as u16 + 1)
    } else {
        x
    };
    let limit: u16 = x + width - tx;
    draw_text(buf, tx, y, limit, text.as_slice(), None, None);
    proof {
        let n = spec_text_fit(
            text@.len() as int,
            limit as int,
            tx as int,
            buffer_area(*old(buf)).0 as int + buffer_area(*old(buf)).2 as int,
        );
        assert forall|i: int, j: int| #[trigger] buffer_bg(*buf, i, j) == buffer_bg(
            *old(buf),
            i,
            j,
        ) by {
            if j == y as int && tx as int <= i < tx as int + n {
                assert(buffer_bg(*buf, tx as int + (i - tx as int), y as int) == buffer_bg(
                    *old(buf),
                    tx as int + (i - tx as int),
                    y as int,
                ));
            }
        }
    }
}

/// The previous row's level within the drawn window, or `None` on its first
/// row.
pub open spec fn spec_prev_level(rows: Seq<(Key, Value)>, offset: int, j: int) -> Option<int> {
    if j == 0 {
        None
    } else {
        Some(rows[offset + j - 1].0.spec_level())
    }
}

/// The next row's level, peeked one ahead inside the drawn window, or 0 past
/// its end.
pub open spec fn spec_next_level(
    rows: Seq<(Key, Value)>,
    offset: int,
    height: int,
    j: int,
) -> int {
    if j + 1 < spec_window_len(rows.len() as int, offset, height) {
        rows[offset + j + 1].0.spec_level()
    } else {
        0
    }
}

/// The tree-column text of the window's `j`-th visible row.
pub open spec fn spec_tree_prefix_at(
    rows: Seq<(Key, Value)>,
    offset: int,
    height: int,
    j: int,
) -> Seq<char> {
    spec_tree_prefix(
        spec_prev_level(rows, offset, j),
        rows[offset + j].0.spec_level(),
        spec_next_level(rows, offset, height, j),
        rows[offset + j].1.name@,
    )
}

/// The widest tree-column text among the window's first `j` rows, capped at
/// what a cell coordinate can hold.
pub open spec fn spec_max_tree_width(
    rows: Seq<(Key, Value)>,
    offset: int,
    height: int,
    j: int,
) -> int
    decreases j,
{
    if j <= 0 {
        0
    } else {
        let m = spec_max_tree_width(rows, offset, height, j - 1);
        let l = spec_tree_prefix_at(rows, offset, height, j - 1).len() as int;
        let lc = if l > 65535 {
            65535
        } else {
            l
        };
        if lc > m {
            lc
        } else {
            m
        }
    }
}

/// The label width of the window's `j`-th visible row: the length of its
/// progress label, or zero for a pure group.
pub open spec fn spec_label_width_at(rows: Seq<(Key, Value)>, offset: int, j: int) -> int {
    match rows[offset + j].1.progress {
        Some(p) => p.spec_label().len() as int,
        None => 0,
    }
}

/// The widest progress label among the window's first `j` rows, capped at
/// what a cell coordinate can hold.
pub open spec fn spec_max_label_width(
    rows: Seq<(Key, Value)>,
    offset: int,
    j: int,
) -> int
    decreases j,
{
    if j <= 0 {
        0
    } else {
        let m = spec_max_label_width(rows, offset, j - 1);
        let l = spec_label_width_at(rows, offset, j - 1);
        let lc = if l > 65535 {
            65535
        } else {
            l
        };
        if lc > m {
            lc
        } else {
            m
        }
    }
}

/// The connector prefix of the window's `j`-th visible row.
pub open spec fn spec_row_prefix(rows: Seq<(Key, Value)>, offset: int, height: int, j: int) -> Seq<
    char,
> {
    spec_level_prefix(
        spec_prev_level(rows, offset, j),
        rows[offset + j].0.spec_level(),
        spec_next_level(rows, offset, height, j),
    )
}

/// The text of the window's `j`-th visible row: a blank, then the progress
/// label with its blocked/halted annotation, or for a pure group the dashed
/// filler sized to the label column followed by the row's name.
pub open spec fn spec_row_text(
    rows: Seq<(Key, Value)>,
    offset: int,
    j: int,
    max_label: int,
    now: u64,
) -> Seq<char> {
    match rows[offset + j].1.progress {
        Some(p) => seq![' '] + p.spec_label() + spec_block_eta(p.state, now),
        None => seq![' '] + spec_repeat('─', max_label) + seq![' '] + rows[offset + j].1.name@
            + seq![' '],
    }
}

/// Where the window's `j`-th row's text starts: right after its connector
/// prefix, clamped to the row's right edge.
pub open spec fn spec_row_px(
    rows: Seq<(Key, Value)>,
    offset: int,
    height: int,
    j: int,
    x: int,
    col: int,
    width: int,
) -> int {
    let p = x + col + spec_row_prefix(rows, offset, height, j).len();
    if p >= x + width {
        x + width
    } else {
        p
    }
}

/// The filled bar cells of the window's `j`-th row in a column of `pw`
/// cells: zero unless the row has a computable fraction.
pub open spec fn spec_row_fill(rows: Seq<(Key, Value)>, offset: int, j: int, pw: int) -> int {
    match rows[offset + j].1.progress {
        Some(p) => match p.done_at {
            Some(d) => if d > 0 {
                spec_bar_fill(pw, p.step as int, d as int)
            } else {
                0
            },
            None => 0,
        },
        None => 0,
    }
}

/// The bar color of the window's `j`-th row; meaningful only where the row
/// fills bar cells at all.
pub open spec fn spec_row_bar_tint(rows: Seq<(Key, Value)>, offset: int, j: int) -> Tint {
    match rows[offset + j].1.progress {
        Some(p) => spec_bar_color(
            p.state,
            p.step as int,
            match p.done_at {
                Some(d) => d as int,
                None => 0,
            },
        ),
        None => Tint::White,
    }
}

/// Whether the window's `j`-th row shows an indeterminate spinner: progress
/// without a computable fraction.
pub open spec fn spec_row_is_spinner(rows: Seq<(Key, Value)>, offset: int, j: int) -> bool {
    match rows[offset + j].1.progress {
        Some(p) => match p.done_at {
            Some(d) => d == 0,
            None => true,
        },
        None => false,
    }
}

/// The spinner color of the window's `j`-th row.
pub open spec fn spec_row_spin_tint(rows: Seq<(Key, Value)>, offset: int, j: int) -> Tint {
    match rows[offset + j].1.progress {
        Some(p) => spec_spinner_color(p.state),
        None => Tint::White,
    }
}

/// The column of the window's `j`-th row's spinner block, inside a bar that
/// starts at `barx` and is `barw` cells wide.
pub open spec fn spec_row_spin_x(
    rows: Seq<(Key, Value)>,
    offset: int,
    j: int,
    barx: int,
    barw: int,
) -> int {
    match rows[offset + j].1.progress {
        Some(p) => barx + spec_spinner_offset(p.step as int, j, barw),
        None => barx,
    }
}

/// Every cell the tree column pins: each visible row's tree-column text,
/// written from `x`, as far as the width and the buffer's right edge allow.
pub open spec fn spec_tree_cells(
    post: tui::buffer::Buffer,
    rows: Seq<(Key, Value)>,
    x: int,
    y: int,
    width: int,
    height: int,
    offset: int,
) -> bool {
    forall|jj: int, i: int|
        0 <= jj < spec_window_len(rows.len() as int, offset, height) && 0 <= i < spec_text_fit(
            spec_tree_prefix_at(rows, offset, height, jj).len() as int,
            width,
            x,
            buffer_area(post).0 as int + buffer_area(post).2 as int,
        ) ==> #[trigger] buffer_cell(post, x + i, y + jj) == seq![
            spec_tree_prefix_at(rows, offset, height, jj)[i],
        ]
}

/// Every cell the progress column pins, row by row: the column line, the
/// connector prefix, the row text, the bar cells in the bar color and the
/// spinner cell in the spinner color.
pub open spec fn spec_progress_cells(
    post: tui::buffer::Buffer,
    rows: Seq<(Key, Value)>,
    x: int,
    y: int,
    width: int,
    height: int,
    draw_column_line: bool,
    offset: int,
    now: u64,
) -> bool {
    let win = spec_window_len(rows.len() as int, offset, height);
    let ml = spec_max_label_width(rows, offset, win);
    let col = spec_col(draw_column_line);
    let right = x + width;
    &&& (draw_column_line && width > 0 ==> forall|jj: int|
        0 <= jj < win ==> #[trigger] buffer_cell(post, x, y + jj) == seq!['│'])
    &&& (width > 0 ==> forall|jj: int, i: int|
        0 <= jj < win && 0 <= i < spec_split_n(
            spec_row_prefix(rows, offset, height, jj).len() as int,
            x + col,
            right,
        ) ==> #[trigger] buffer_cell(post, x + col + i, y + jj) == seq![
            spec_row_prefix(rows, offset, height, jj)[i],
        ])
    &&& (width > 0 ==> forall|jj: int, i: int|
        0 <= jj < win && 0 <= i < spec_split_n(
            spec_row_text(rows, offset, jj, ml, now).len() as int,
            spec_row_px(rows, offset, height, jj, x, col, width),
            right,
        ) ==> #[trigger] buffer_cell(
            post,
            spec_row_px(rows, offset, height, jj, x, col, width) + i,
            y + jj,
        ) == seq![spec_row_text(rows, offset, jj, ml, now)[i]])
    &&& (width > 0 ==> forall|jj: int, i: int|
        0 <= jj < win && 0 <= i < spec_row_fill(
            rows,
            offset,
            jj,
            right - spec_row_px(rows, offset, height, jj, x, col, width),
        ) ==> #[trigger] buffer_bg(
            post,
            spec_row_px(rows, offset, height, jj, x, col, width) + i,
            y + jj,
        ) == Some(spec_row_bar_tint(rows, offset, jj)))
    &&& (width > 0 && x + ml < right ==> forall|jj: int|
        0 <= jj < win && spec_row_is_spinner(rows, offset, jj) ==> #[trigger] buffer_bg(
            post,
            spec_row_spin_x(rows, offset, jj, x + ml, right - (x + ml)),
            y + jj,
        ) == Some(spec_row_spin_tint(rows, offset, jj)))
}

/// Where the headline text starts: right-aligned with one trailing blank
/// when it fits, else at the row's left edge.
pub open spec fn spec_headline_tx(text_len: int, x: int, width: int) -> int {
    if text_len < width {
        x + width - (text_len + 1)
    } else {
        x
    }
}

/// Where the scroll-key legend starts: right-aligned when it fits, else at
/// the row's left edge.
pub open spec fn spec_help_x(help_len: int, x: int, width: int) -> int {
    if help_len <= width {
        x + width - help_len
    } else {
        x
    }
}

/// Every cell the overflow summary row pins: the mean-fraction bar colors,
/// the label and the right-aligned scroll-key legend.
pub open spec fn spec_overflow_cells(
    post: tui::buffer::Buffer,
    rows: Seq<(Key, Value)>,
    x: int,
    y: int,
    width: int,
    label_offset: int,
    visible: int,
    offset: int,
) -> bool {
    let fill = spec_bar_fill_ppm(width, spec_overflow_mean(rows, offset, visible));
    let right = x + width;
    let lab = spec_overflow_label(
        label_offset != 0,
        offset,
        spec_overflow_more(rows.len() as int, offset, visible),
    );
    let lx = x + label_offset;
    let nl = spec_split_n(lab.len() as int, lx, right);
    let h = "⇊ = d|↓ = j|⇈ = u|↑ = k "@;
    let hx = spec_help_x(h.len() as int, x, width);
    let nh = spec_split_n(h.len() as int, hx, right);
    &&& forall|i: int| x <= i < x + fill ==> #[trigger] buffer_bg(post, i, y) == Some(Tint::Green)
    &&& forall|i: int| x + fill <= i < right ==> #[trigger] buffer_bg(post, i, y) == Some(
        Tint::Red,
    )
    &&& (hx < right ==> forall|i: int|
        0 <= i < nh ==> #[trigger] buffer_cell(post, hx + i, y) == seq![h[i]])
    &&& (width > 0 && lx < right ==> forall|i: int|
        0 <= i < nl && !(hx <= lx + i < hx + nh) ==> #[trigger] buffer_cell(post, lx + i, y)
            == seq![lab[i]])
}

/// Every cell the headline pins: its text, right-aligned in the row.
pub open spec fn spec_headline_cells(
    post: tui::buffer::Buffer,
    rows: Seq<(Key, Value)>,
    mode: InterruptDrawInfo,
    x: int,
    y: int,
    width: int,
) -> bool {
    let text = spec_headline(
        mode,
        spec_running_count(rows, 0),
        spec_blocked_count(rows, 0),
        spec_group_count(rows, 0),
        rows.len() as int,
    );
    let tx = spec_headline_tx(text.len() as int, x, width);
    let n = if width == 0 {
        0int
    } else {
        spec_text_fit(
            text.len() as int,
            x + width - tx,
            tx,
            buffer_area(post).0 as int + buffer_area(post).2 as int,
        )
    };
    forall|i: int| 0 <= i < n ==> #[trigger] buffer_cell(post, tx + i, y) == seq![text[i]]
}

/// The tree column width a pane prefers: the remembered width, else half the
/// pane, capped at the pane's width.
pub open spec fn spec_pane_desired(width: int, next: Option<u16>) -> int {
    match next {
        Some(w) => w as int,
        None => width / 2,
    }
}

/// The tree column width a pane actually draws with.
pub open spec fn spec_pane_tree_w(width: int, next: Option<u16>) -> int {
    let d = spec_pane_desired(width, next);
    if d <= width {
        d
    } else {
        width
    }
}

/// Every cell one pane render pins: the tree column (where one is drawn),
/// the progress column, and the overflow summary row (where one is needed).
pub open spec fn spec_pane_cells(
    post: tui::buffer::Buffer,
    rows: Seq<(Key, Value)>,
    x: int,
    y: int,
    width: int,
    height: int,
    next: Option<u16>,
    old_offset: int,
    now: u64,
) -> bool {
    let tw = spec_pane_tree_w(width, next);
    let h2 = spec_effective_height(rows.len() as int, height, old_offset);
    let o2 = spec_pane_offset(old_offset, rows.len() as int, height);
    &&& (width / 2 >= MIN_TREE_WIDTH as int ==> spec_tree_cells(post, rows, x, y, tw, h2, o2))
    &&& spec_progress_cells(
        post,
        rows,
        x + tw,
        y,
        width - tw,
        h2,
        spec_pane_desired(width, next) != 0,
        o2,
        now,
    )
    &&& (height > 0 && spec_needs_overflow_row(
        rows.len() as int,
        height,
        spec_clamped_offset(old_offset, rows.len() as int, height),
    ) ==> spec_overflow_cells(post, rows, x, y + h2, width, tw, h2, o2))
}

/// Pinned cells survive any later write that stays off them: if two buffers
/// of one area agree on every cell and background of the progress column's
/// rectangle, the column's pinned cells carry over.
pub proof fn lemma_progress_cells_stable(
    a: tui::buffer::Buffer,
    b: tui::buffer::Buffer,
    rows: Seq<(Key, Value)>,
    x: int,
    y: int,
    width: int,
    height: int,
    draw_column_line: bool,
    offset: int,
    now: u64,
)
    requires
        spec_progress_cells(a, rows, x, y, width, height, draw_column_line, offset, now),
        buffer_area(b) == buffer_area(a),
        forall|i: int, j2: int|
            y <= j2 < y + spec_window_len(rows.len() as int, offset, height) && x <= i < x + width
                ==> #[trigger] buffer_cell(b, i, j2) == buffer_cell(a, i, j2),
        forall|i: int, j2: int|
            y <= j2 < y + spec_window_len(rows.len() as int, offset, height) && x <= i < x + width
                ==> #[trigger] buffer_bg(b, i, j2) == buffer_bg(a, i, j2),
    ensures
        spec_progress_cells(b, rows, x, y, width, height, draw_column_line, offset, now),
{
    let win = spec_window_len(rows.len() as int, offset, height);
    let ml = spec_max_label_width(rows, offset, win);
    let col = spec_col(draw_column_line);
    let right = x + width;
    if width > 0 {
        if draw_column_line {
            assert forall|jj: int| 0 <= jj < win implies #[trigger] buffer_cell(b, x, y + jj)
                == seq!['│'] by {
                assert(buffer_cell(b, x, y + jj) == buffer_cell(a, x, y + jj));
            }
        }
        assert forall|jj: int, i: int|
            0 <= jj < win && 0 <= i < spec_split_n(
                spec_row_prefix(rows, offset, height, jj).len() as int,
                x + col,
                right,
            ) implies #[trigger] buffer_cell(b, x + col + i, y + jj) == seq![
            spec_row_prefix(rows, offset, height, jj)[i],
        ] by {
            assert(buffer_cell(b, x + col + i, y + jj) == buffer_cell(a, x + col + i, y + jj));
        }
        assert forall|jj: int, i: int|
            0 <= jj < win && 0 <= i < spec_split_n(
                spec_row_text(rows, offset, jj, ml, now).len() as int,
                spec_row_px(rows, offset, height, jj, x, col, width),
                right,
            ) implies #[trigger] buffer_cell(
            b,
            spec_row_px(rows, offset, height, jj, x, col, width) + i,
            y + jj,
        ) == seq![spec_row_text(rows, offset, jj, ml, now)[i]] by {
            assert(buffer_cell(
                b,
                spec_row_px(rows, offset, height, jj, x, col, width) + i,
                y + jj,
            ) == buffer_cell(a, spec_row_px(rows, offset, height, jj, x, col, width) + i, y + jj));
        }
        assert forall|jj: int, i: int|
            0 <= jj < win && 0 <= i < spec_row_fill(
                rows,
                offset,
                jj,
                right - spec_row_px(rows, offset, height, jj, x, col, width),
            ) implies #[trigger] buffer_bg(
            b,
            spec_row_px(rows, offset, height, jj, x, col, width) + i,
            y + jj,
        ) == Some(spec_row_bar_tint(rows, offset, jj)) by {
            assert(buffer_bg(b, spec_row_px(rows, offset, height, jj, x, col, width) + i, y + jj)
                == buffer_bg(a, spec_row_px(rows, offset, height, jj, x, col, width) + i, y + jj));
        }
        if x + ml < right {
            assert forall|jj: int|
                0 <= jj < win && spec_row_is_spinner(rows, offset, jj) implies #[trigger]
                buffer_bg(
                b,
                spec_row_spin_x(rows, offset, jj, x + ml, right - (x + ml)),
                y + jj,
            ) == Some(spec_row_spin_tint(rows, offset, jj)) by {
                assert(buffer_bg(
                    b,
                    spec_row_spin_x(rows, offset, jj, x + ml, right - (x + ml)),
                    y + jj,
                ) == buffer_bg(a, spec_row_spin_x(rows, offset, jj, x + ml, right - (x + ml)), y
                    + jj));
            }
        }
    }
}

/// As above, for the tree column's pinned cells.
pub proof fn lemma_tree_cells_stable(
    a: tui::buffer::Buffer,
    b: tui::buffer::Buffer,
    rows: Seq<(Key, Value)>,
    x: int,
    y: int,
    width: int,
    height: int,
    offset: int,
)
    requires
        spec_tree_cells(a, rows, x, y, width, height, offset),
        buffer_area(b) == buffer_area(a),
        forall|i: int, j2: int|
            y <= j2 < y + spec_window_len(rows.len() as int, offset, height) && x <= i < x + width
                ==> #[trigger] buffer_cell(b, i, j2) == buffer_cell(a, i, j2),
    ensures
        spec_tree_cells(b, rows, x, y, width, height, offset),
{
    let win = spec_window_len(rows.len() as int, offset, height);
    assert forall|jj: int, i: int|
        0 <= jj < win && 0 <= i < spec_text_fit(
            spec_tree_prefix_at(rows, offset, height, jj).len() as int,
            width,
            x,
            buffer_area(b).0 as int + buffer_area(b).2 as int,
        ) implies #[trigger] buffer_cell(b, x + i, y + jj) == seq![
        spec_tree_prefix_at(rows, offset, height, jj)[i],
    ] by {
        assert(buffer_cell(b, x + i, y + jj) == buffer_cell(a, x + i, y + jj));
    }
}

/// As above, for the headline's pinned cells.
pub proof fn lemma_headline_cells_stable(
    a: tui::buffer::Buffer,
    b: tui::buffer::Buffer,
    rows: Seq<(Key, Value)>,
    mode: InterruptDrawInfo,
    x: int,
    y: int,
    width: int,
)
    requires
        spec_headline_cells(a, rows, mode, x, y, width),
        buffer_area(b) == buffer_area(a),
        forall|i: int, j2: int|
            j2 == y && x <= i < x + width ==> #[trigger] buffer_cell(b, i, j2) == buffer_cell(
                a,
                i,
                j2,
            ),
    ensures
        spec_headline_cells(b, rows, mode, x, y, width),
{
    let text = spec_headline(
        mode,
        spec_running_count(rows, 0),
        spec_blocked_count(rows, 0),
        spec_group_count(rows, 0),
        rows.len() as int,
    );
    let tx = spec_headline_tx(text.len() as int, x, width);
    let n = if width == 0 {
        0int
    } else {
        spec_text_fit(
            text.len() as int,
            x + width - tx,
            tx,
            buffer_area(b).0 as int + buffer_area(b).2 as int,
        )
    };
    assert forall|i: int| 0 <= i < n implies #[trigger] buffer_cell(b, tx + i, y) == seq![
        text[i],
    ] by {
        assert(x <= tx);
        assert(tx + n <= x + width);
        assert(buffer_area(a).0 as int + buffer_area(a).2 as int == buffer_area(b).0 as int
            + buffer_area(b).2 as int);
        assert(buffer_cell(a, tx + i, y) == seq![text[i]]);
        assert(buffer_cell(b, tx + i, y) == buffer_cell(a, tx + i, y));
    }
}

/// Draw one prefix string per visible row of the tree column, and return the
/// widest tree-column text observed, which sizes the adjoining progress
/// column.
pub fn draw_tree(
    entries: &[(Key, Value)],
    buf: &mut tui::buffer::Buffer,
    x: u16,
    y: u16,
    width: u16,
    height: u16,
    offset: u16,
) -> (r: u16)
    requires
        forall|i: int| 0 <= i < entries@.len() ==> (#[trigger] entries@[i].0).wf(),
        buffer_area(*old(buf)).0 <= x,
        x as int + width as int <= buffer_area(*old(buf)).0 + buffer_area(*old(buf)).2,
        buffer_area(*old(buf)).1 <= y,
        y as int + height as int <= buffer_area(*old(buf)).1 + buffer_area(*old(buf)).3,
        y as int + height as int <= u16::MAX as int,
        x as int + width as int <= u16::MAX as int,
    ensures
        buffer_area(*final (buf)) == buffer_area(*old(buf)),
        r as int == spec_max_tree_width(
            entries@,
            offset as int,
            height as int,
            spec_window_len(entries@.len() as int, offset as int, height as int),
        ),
        spec_tree_cells(
            *final (buf),
            entries@,
            x as int,
            y as int,
            width as int,
            height as int,
            offset as int,
        ),
        ({
            let win = spec_window_len(entries@.len() as int, offset as int, height as int);
            &&& forall|i: int, j: int|
                !(y as int <= j < y as int + win && x as int <= i < x as int + width as int)
                    ==> #[trigger] buffer_cell(*final (buf), i, j) == buffer_cell(*old(buf), i, j)
            &&& forall|i: int, j: int|
                #[trigger] buffer_bg(*final (buf), i, j) == buffer_bg(*old(buf), i, j)
        }),
{
    let win: usize = if entries.len() > offset as usize {
        let rest = entries.len() - offset as usize;
        if rest <= height as usize {
            rest
        } else {
            height as usize
        }
    } else {
        0
    };
    let mut max_prefix_len: u16 = 0;
    let mut prev_level: Option<Level> = None;
    let mut j: usize = 0;
    while j < win
        invariant
            win as int == spec_window_len(entries@.len() as int, offset as int, height as int),
            win <= height as int,
            win == 0 || offset as int + win as int <= entries@.len(),
            j <= win,
            forall|i: int| 0 <= i < entries@.len() ==> (#[trigger] entries@[i].0).wf(),
            buffer_area(*buf) == buffer_area(*old(buf)),
            buffer_area(*old(buf)).0 <= x,
            x as int + width as int <= buffer_area(*old(buf)).0 + buffer_area(*old(buf)).2,
            buffer_area(*old(buf)).1 <= y,
            y as int + height as int <= buffer_area(*old(buf)).1 + buffer_area(*old(buf)).3,
            y as int + height as int <= u16::MAX as int,
            x as int + width as int <= u16::MAX as int,
            lift_level(prev_level) == spec_prev_level(entries@, offset as int, j as int),
            max_prefix_len as int == spec_max_tree_width(
                entries@,
                offset as int,
                height as int,
                j as int,
            ),
            width > 0 ==> forall|jj: int, i: int|
                0 <= jj < j as int && 0 <= i < spec_text_fit(
                    spec_tree_prefix_at(entries@, offset as int, height as int, jj).len() as int,
                    width as int,
                    x as int,
                    buffer_area(*old(buf)).0 as int + buffer_area(*old(buf)).2 as int,
                ) ==> #[trigger] buffer_cell(*buf, x as int + i, y as int + jj) == seq![
                    spec_tree_prefix_at(entries@, offset as int, height as int, jj)[i],
                ],
            forall|i: int, jj: int|
                !(y as int <= jj < y as int + j as int && x as int <= i < x as int
                    + width as int) ==> #[trigger] buffer_cell(*buf, i, jj) == buffer_cell(
                    *old(buf),
                    i,
                    jj,
                ),
            forall|i: int, jj: int|
                #[trigger] buffer_bg(*buf, i, jj) == buffer_bg(*old(buf), i, jj),
        decreases win - j,
    {
        let idx = offset as usize + j;
        let next_level: Level = if j + 1 < win {
            entries[idx + 1].0.level()
        } else {
            0
        };
        let prefix = to_tree_prefix(&entries[idx], prev_level, next_level);
        prev_level = Some(entries[idx].0.level());
        let plen = prefix.len();
        let capped: u16 = if plen > 65535 {
            65535
        } else {
            plen as u16
        };
        if capped > max_prefix_len {
            max_prefix_len = capped;
        }
        let ghost before = *buf;
        if width > 0 {
            draw_text(buf, x, y + (j as u16), width, prefix.as_slice(), None, None);
        }
        proof {
            let ar = buffer_area(*old(buf)).0 as int + buffer_area(*old(buf)).2 as int;
            assert(prefix@ == spec_tree_prefix_at(entries@, offset as int, height as int, j as int));
            assert forall|i: int, jj: int| #[trigger] buffer_bg(*buf, i, jj) == buffer_bg(
                *old(buf),
                i,
                jj,
            ) by {
                if width > 0 {
                    let n = spec_text_fit(prefix@.len() as int, width as int, x as int, ar);
                    if jj == y as int + j as int && x as int <= i < x as int + n {
                        assert(buffer_bg(*buf, x as int + (i - x as int), (y + j as u16) as int)
                            == buffer_bg(before, x as int + (i - x as int), (y + j as u16) as int));
                    }
                }
            }
        }
        j = j + 1;
    }
    max_prefix_len
}

/// How many characters of a text of `len` characters land on a row: cut by
/// the cell budget `limit` and by the buffer's right edge at `area_right`.
pub open spec fn spec_text_fit(len: int, limit: int, x: int, area_right: int) -> int {
    let budget = if limit <= area_right - x {
        limit
    } else {
        area_right - x
    };
    if len <= budget {
        len
    } else {
        budget
    }
}

/// Write `text` from `(x, y)` rightward, one character per cell, using at
/// most `limit` cells and never reaching the buffer's right edge; a given
/// color repaints the written cells, `None` leaves that color alone.
fn draw_text(
    buf: &mut tui::buffer::Buffer,
    x: u16,
    y: u16,
    limit: u16,
    text: &[char],
    fg: Option<Tint>,
    bg: Option<Tint>,
)
    requires
        buffer_area(*old(buf)).0 <= x,
        x < buffer_area(*old(buf)).0 + buffer_area(*old(buf)).2,
        buffer_area(*old(buf)).1 <= y,
        y < buffer_area(*old(buf)).1 + buffer_area(*old(buf)).3,
        x as int + limit as int <= u16::MAX as int,
        y < u16::MAX,
    ensures
        buffer_area(*final (buf)) == buffer_area(*old(buf)),
        ({
            let n = spec_text_fit(
                text@.len() as int,
                limit as int,
                x as int,
                buffer_area(*old(buf)).0 as int + buffer_area(*old(buf)).2 as int,
            );
            &&& forall|i: int|
                0 <= i < n ==> #[trigger] buffer_cell(*final (buf), x as int + i, y as int)
                    == seq![text@[i]]
            &&& forall|i: int, j: int|
                !(j == y as int && x as int <= i < x as int + n) ==> #[trigger] buffer_cell(
                    *final (buf),
                    i,
                    j,
                ) == buffer_cell(*old(buf), i, j)
            &&& forall|i: int|
                0 <= i < n ==> #[trigger] buffer_bg(*final (buf), x as int + i, y as int) == (
                match bg {
                    Some(t) => Some(t),
                    None => buffer_bg(*old(buf), x as int + i, y as int),
                })
            &&& forall|i: int, j: int|
                !(j == y as int && x as int <= i < x as int + n) ==> #[trigger] buffer_bg(
                    *final (buf),
                    i,
                    j,
                ) == buffer_bg(*old(buf), i, j)
        }),
{
    let area = buf_region(buf);
    let edge: u32 = area.0 as u32 + area.2 as u32;
    let end: u32 = if x as u32 + limit as u32 <= edge {
        x as u32 + limit as u32
    } else {
        edge
    };
    let cols: u32 = end - x as u32;
    let n: usize = if text.len() <= cols as usize {
        text.len()
    } else {
        cols as usize
    };
    proof {
        assert(n as int == spec_text_fit(
            text@.len() as int,
            limit as int,
            x as int,
            area.0 as int + area.2 as int,
        ));
    }
    let mut k: usize = 0;
    while k < n
        invariant
            k <= n,
            n <= text@.len(),
            x as int + n <= x as int + limit as int <= u16::MAX as int,
            x as int + n <= buffer_area(*old(buf)).0 as int + buffer_area(*old(buf)).2 as int,
            buffer_area(*old(buf)).0 <= x,
            buffer_area(*old(buf)).1 <= y,
            y < buffer_area(*old(buf)).1 + buffer_area(*old(buf)).3,
            y < u16::MAX,
            buffer_area(*buf) == buffer_area(*old(buf)),
            forall|i: int|
                0 <= i < k ==> #[trigger] buffer_cell(*buf, x as int + i, y as int) == seq![
                    text@[i],
                ],
            forall|i: int, j: int|
                !(j == y as int && x as int <= i < x as int + k) ==> #[trigger] buffer_cell(
                    *buf,
                    i,
                    j,
                ) == buffer_cell(*old(buf), i, j),
            forall|i: int|
                0 <= i < k ==> #[trigger] buffer_bg(*buf, x as int + i, y as int) == (match bg {
                    Some(t) => Some(t),
                    None => buffer_bg(*old(buf), x as int + i, y as int),
                }),
            forall|i: int, j: int|
                !(j == y as int && x as int <= i < x as int + k) ==> #[trigger] buffer_bg(
                    *buf,
                    i,
                    j,
                ) == buffer_bg(*old(buf), i, j),
        decreases n - k,
    {
        let c = text[k];
        put_cell(buf, x + (k as u16), y, c, fg, bg);
        k = k + 1;
    }
}

/// Characters of a text of `len` characters that a split write starting at
/// `tx` and stopping before `right` places on the row.
pub open spec fn spec_split_n(len: int, tx: int, right: int) -> int {
    if len <= right - tx {
        len
    } else {
        right - tx
    }
}

/// Of those, the count recolored with the first color pair: the characters
/// left of the `boundary` column.
pub open spec fn spec_split_k(len: int, tx: int, right: int, boundary: int) -> int {
    if boundary <= tx {
        0
    } else if boundary - tx <= len {
        boundary - tx
    } else {
        len
    }
}

/// Write `text` from `tx` rightward up to (never reaching) `right`,
/// recoloring the part left of the `boundary` column with the first color
/// pair and the rest with the second.
fn put_split(
    buf: &mut tui::buffer::Buffer,
    tx: u16,
    y: u16,
    right: u16,
    boundary: u16,
    text: &[char],
    fg_a: Option<Tint>,
    bg_a: Option<Tint>,
    fg_b: Option<Tint>,
    bg_b: Option<Tint>,
)
    requires
        buffer_area(*old(buf)).0 <= tx,
        tx < right,
        right as int <= buffer_area(*old(buf)).0 + buffer_area(*old(buf)).2,
        right as int <= u16::MAX as int,
        buffer_area(*old(buf)).1 <= y,
        (y as int) < buffer_area(*old(buf)).1 + buffer_area(*old(buf)).3,
        y < u16::MAX,
        boundary <= right,
    ensures
        buffer_area(*final (buf)) == buffer_area(*old(buf)),
        ({
            let n = spec_split_n(text@.len() as int, tx as int, right as int);
            let k = spec_split_k(text@.len() as int, tx as int, right as int, boundary as int);
            &&& forall|i: int|
                0 <= i < n ==> #[trigger] buffer_cell(*final (buf), tx as int + i, y as int)
                    == seq![text@[i]]
            &&& forall|i: int, j: int|
                !(j == y as int && tx as int <= i < tx as int + n) ==> #[trigger] buffer_cell(
                    *final (buf),
                    i,
                    j,
                ) == buffer_cell(*old(buf), i, j)
            &&& forall|i: int|
                0 <= i < k ==> #[trigger] buffer_bg(*final (buf), tx as int + i, y as int) == (
                match bg_a {
                    Some(t) => Some(t),
                    None => buffer_bg(*old(buf), tx as int + i, y as int),
                })
            &&& forall|i: int|
                k <= i < n ==> #[trigger] buffer_bg(*final (buf), tx as int + i, y as int) == (
                match bg_b {
                    Some(t) => Some(t),
                    None => buffer_bg(*old(buf), tx as int + i, y as int),
                })
            &&& forall|i: int, j: int|
                !(j == y as int && tx as int <= i < tx as int + n) ==> #[trigger] buffer_bg(
                    *final (buf),
                    i,
                    j,
                ) == buffer_bg(*old(buf), i, j)
        }),
{
    let k: usize = if boundary > tx {
        let cap = (boundary - tx) as usize;
        if cap <= text.len() {
            cap
        } else {
            text.len()
        }
    } else {
        0
    };
    let head = take_chars(text, k);
    let tail = skip_chars(text, k);
    let ghost ar = buffer_area(*old(buf)).0 as int + buffer_area(*old(buf)).2 as int;
    if boundary > tx {
        proof {
            assert(spec_text_fit(head@.len() as int, boundary as int - tx as int, tx as int, ar)
                == k as int);
        }
        draw_text(buf, tx, y, boundary - tx, head.as_slice(), fg_a, bg_a);
    }
    let ghost mid = *buf;
    let tx2_wide: u64 = tx as u64 + k as u64;
    if tx2_wide < right as u64 {
        let tx2 = tx2_wide as u16;
        proof {
            assert(spec_text_fit(tail@.len() as int, right as int - tx2 as int, tx2 as int, ar)
                == spec_split_n(text@.len() as int, tx as int, right as int) - k as int);
        }
        draw_text(buf, tx2, y, right - tx2, tail.as_slice(), fg_b, bg_b);
    }
    proof {
        let len = text@.len() as int;
        let n = spec_split_n(len, tx as int, right as int);
        let kk = k as int;
        assert(spec_split_k(len, tx as int, right as int, boundary as int) == kk);
        if !(tx as int + kk < right as int) {
            assert(n == kk);
        }
        assert forall|i: int| 0 <= i < n implies #[trigger] buffer_cell(
            *buf,
            tx as int + i,
            y as int,
        ) == seq![text@[i]] by {
            if i < kk {
                assert(buffer_cell(mid, tx as int + i, y as int) == seq![head@[i]]);
                assert(head@[i] == text@[i]);
            } else {
                assert(buffer_cell(*buf, tx as int + kk + (i - kk), y as int) == seq![
                    tail@[i - kk],
                ]);
                assert(tail@[i - kk] == text@[i]);
            }
        }
        assert forall|i: int| 0 <= i < kk implies #[trigger] buffer_bg(
            *buf,
            tx as int + i,
            y as int,
        ) == (match bg_a {
            Some(t) => Some(t),
            None => buffer_bg(*old(buf), tx as int + i, y as int),
        }) by {
            assert(buffer_bg(mid, tx as int + i, y as int) == (match bg_a {
                Some(t) => Some(t),
                None => buffer_bg(*old(buf), tx as int + i, y as int),
            }));
        }
        assert forall|i: int| kk <= i < n implies #[trigger] buffer_bg(
            *buf,
            tx as int + i,
            y as int,
        ) == (match bg_b {
            Some(t) => Some(t),
            None => buffer_bg(*old(buf), tx as int + i, y as int),
        }) by {
            assert(buffer_bg(mid, tx as int + i, y as int) == buffer_bg(
                *old(buf),
                tx as int + i,
                y as int,
            ));
            assert(buffer_bg(*buf, tx as int + kk + (i - kk), y as int) == (match bg_b {
                Some(t) => Some(t),
                None => buffer_bg(mid, tx as int + kk + (i - kk), y as int),
            }));
        }
    }
}

/// Draw the status and progress portion of each visible row: a column line,
/// the connector prefix, and a determinate bar, an indeterminate spinner or
/// a pure-group filler with the entry's name.
#[verifier::rlimit(100)]
pub fn draw_progress(
    entries: &[(Key, Value)],
    buf: &mut tui::buffer::Buffer,
    x: u16,
    y: u16,
    width: u16,
    height: u16,
    draw_column_line: bool,
    offset: u16,
    now: u64,
)
    requires
        forall|i: int| 0 <= i < entries@.len() ==> (#[trigger] entries@[i].0).wf(),
        buffer_area(*old(buf)).0 <= x,
        x as int + width as int <= buffer_area(*old(buf)).0 + buffer_area(*old(buf)).2,
        buffer_area(*old(buf)).1 <= y,
        y as int + height as int <= buffer_area(*old(buf)).1 + buffer_area(*old(buf)).3,
        x as int + width as int <= u16::MAX as int,
        y as int + height as int <= u16::MAX as int,
    ensures
        buffer_area(*final (buf)) == buffer_area(*old(buf)),
        spec_progress_cells(
            *final (buf),
            entries@,
            x as int,
            y as int,
            width as int,
            height as int,
            draw_column_line,
            offset as int,
            now,
        ),
        ({
            let rows = entries@;
            let o = offset as int;
            let ht = height as int;
            let win = spec_window_len(rows.len() as int, o, ht);
            let right = x as int + width as int;
            &&& forall|i: int, j2: int|
                !(y as int <= j2 < y as int + win && x as int <= i < right) ==> #[trigger]
                    buffer_cell(*final (buf), i, j2) == buffer_cell(*old(buf), i, j2)
            &&& forall|i: int, j2: int|
                !(y as int <= j2 < y as int + win && x as int <= i < right) ==> #[trigger]
                    buffer_bg(*final (buf), i, j2) == buffer_bg(*old(buf), i, j2)
        }),
{
    if width == 0 {
        return ;
    }
    let win: usize = if entries.len() > offset as usize {
        let rest = entries.len() - offset as usize;
        if rest <= height as usize {
            rest
        } else {
            height as usize
        }
    } else {
        0
    };
    let mut max_label: u16 = 0;
    let mut jj: usize = 0;
    while jj < win
        invariant
            jj <= win,
            win <= height as int,
            win == 0 || offset as int + win as int <= entries@.len(),
            max_label as int == spec_max_label_width(entries@, offset as int, jj as int),
        decreases win - jj,
    {
        let body = progress_format(&entries[offset as usize + jj].1.progress, 0);
        let blen = body.len();
        let capped: u16 = if blen > 65535 {
            65535
        } else {
            blen as u16
        };
        if capped > max_label {
            max_label = capped;
        }
        proof {
            if entries@[offset as int + jj as int].1.progress is None {
                assert(spec_label_width_at(entries@, offset as int, jj as int) == 0);
            }
        }
        jj = jj + 1;
    }
    let col: u16 = if draw_column_line {
        1
    } else {
        0
    };
    let right: u16 = x + width;
    let ghost rows = entries@;
    let ghost o = offset as int;
    let ghost ht = height as int;
    proof {
        assert(col as int == spec_col(draw_column_line));
    }
    let ghost ml = max_label as int;
    let mut prev_level: Option<Level> = None;
    let mut j: usize = 0;
    while j < win
        invariant
            j <= win,
            win == 0 || offset as int + win as int <= entries@.len(),
            win <= height as int,
            win as int == spec_window_len(rows.len() as int, o, ht),
            rows == entries@,
            o == offset as int,
            ht == height as int,
            col as int == spec_col(draw_column_line),
            ml == max_label as int,
            ml == spec_max_label_width(rows, o, win as int),
            forall|i: int| 0 <= i < entries@.len() ==> (#[trigger] entries@[i].0).wf(),
            buffer_area(*buf) == buffer_area(*old(buf)),
            buffer_area(*old(buf)).0 <= x,
            x as int + width as int <= buffer_area(*old(buf)).0 + buffer_area(*old(buf)).2,
            buffer_area(*old(buf)).1 <= y,
            y as int + height as int <= buffer_area(*old(buf)).1 + buffer_area(*old(buf)).3,
            x as int + width as int <= u16::MAX as int,
            y as int + height as int <= u16::MAX as int,
            width > 0,
            right == x + width,
            col <= 1,
            draw_column_line <==> col == 1,
            lift_level(prev_level) == spec_prev_level(rows, o, j as int),
            draw_column_line ==> forall|j2: int|
                0 <= j2 < j as int ==> #[trigger] buffer_cell(*buf, x as int, y as int + j2)
                    == seq!['│'],
            forall|j2: int, i: int|
                0 <= j2 < j as int && 0 <= i < spec_split_n(
                    spec_row_prefix(rows, o, ht, j2).len() as int,
                    x as int + spec_col(draw_column_line),
                    right as int,
                ) ==> #[trigger] buffer_cell(*buf, x as int + spec_col(draw_column_line) + i, y as int + j2) == seq![
                    spec_row_prefix(rows, o, ht, j2)[i],
                ],
            forall|j2: int, i: int|
                0 <= j2 < j as int && 0 <= i < spec_split_n(
                    spec_row_text(rows, o, j2, ml, now).len() as int,
                    spec_row_px(rows, o, ht, j2, x as int, spec_col(draw_column_line), width as int),
                    right as int,
                ) ==> #[trigger] buffer_cell(
                    *buf,
                    spec_row_px(rows, o, ht, j2, x as int, spec_col(draw_column_line), width as int) + i,
                    y as int + j2,
                ) == seq![spec_row_text(rows, o, j2, ml, now)[i]],
            forall|j2: int, i: int|
                0 <= j2 < j as int && 0 <= i < spec_row_fill(
                    rows,
                    o,
                    j2,
                    right as int - spec_row_px(rows, o, ht, j2, x as int, spec_col(draw_column_line), width as int),
                ) ==> #[trigger] buffer_bg(
                    *buf,
                    spec_row_px(rows, o, ht, j2, x as int, spec_col(draw_column_line), width as int) + i,
                    y as int + j2,
                ) == Some(spec_row_bar_tint(rows, o, j2)),
            x as int + ml < right as int ==> forall|j2: int|
                0 <= j2 < j as int && spec_row_is_spinner(rows, o, j2) ==> #[trigger] buffer_bg(
                    *buf,
                    spec_row_spin_x(rows, o, j2, x as int + ml, right as int - (x as int + ml)),
                    y as int + j2,
                ) == Some(spec_row_spin_tint(rows, o, j2)),
            forall|i: int, j2: int|
                !(y as int <= j2 < y as int + j as int && x as int <= i < right as int)
                    ==> #[trigger] buffer_cell(*buf, i, j2) == buffer_cell(*old(buf), i, j2),
            forall|i: int, j2: int|
                !(y as int <= j2 < y as int + j as int && x as int <= i < right as int)
                    ==> #[trigger] buffer_bg(*buf, i, j2) == buffer_bg(*old(buf), i, j2),
        decreases win - j,
    {
        let ghost before = *buf;
        draw_row(
            entries,
            buf,
            x,
            y,
            width,
            height,
            draw_column_line,
            offset,
            now,
            j,
            win,
            max_label,
            prev_level,
        );
        proof {
            let ji = j as int;
            let ly = y as int + ji;
            assert forall|j2: int, i: int|
                0 <= j2 < ji + 1 && 0 <= i < spec_split_n(
                    spec_row_prefix(rows, o, ht, j2).len() as int,
                    x as int + spec_col(draw_column_line),
                    right as int,
                ) implies #[trigger] buffer_cell(*buf, x as int + spec_col(draw_column_line) + i, y as int + j2) == seq![
                spec_row_prefix(rows, o, ht, j2)[i],
            ] by {
                if j2 < ji {
                    assert(buffer_cell(*buf, x as int + spec_col(draw_column_line) + i, y as int + j2) == buffer_cell(
                        before,
                        x as int + spec_col(draw_column_line) + i,
                        y as int + j2,
                    ));
                } else {
                    assert(buffer_cell(
                        *buf,
                        x as int + spec_col(draw_column_line) + i,
                        y as int + ji,
                    ) == seq![spec_row_prefix(rows, o, ht, ji)[i]]);
                }
            }
            assert forall|j2: int, i: int|
                0 <= j2 < ji + 1 && 0 <= i < spec_split_n(
                    spec_row_text(rows, o, j2, ml, now).len() as int,
                    spec_row_px(rows, o, ht, j2, x as int, spec_col(draw_column_line), width as int),
                    right as int,
                ) implies #[trigger] buffer_cell(
                *buf,
                spec_row_px(rows, o, ht, j2, x as int, spec_col(draw_column_line), width as int) + i,
                y as int + j2,
            ) == seq![spec_row_text(rows, o, j2, ml, now)[i]] by {
                if j2 < ji {
                    assert(buffer_cell(
                        *buf,
                        spec_row_px(rows, o, ht, j2, x as int, spec_col(draw_column_line), width as int) + i,
                        y as int + j2,
                    ) == buffer_cell(
                        before,
                        spec_row_px(rows, o, ht, j2, x as int, spec_col(draw_column_line), width as int) + i,
                        y as int + j2,
                    ));
                } else {
                    assert(buffer_cell(
                        *buf,
                        spec_row_px(rows, o, ht, ji, x as int, spec_col(draw_column_line), width as int) + i,
                        y as int + ji,
                    ) == seq![spec_row_text(rows, o, ji, ml, now)[i]]);
                }
            }
            assert forall|j2: int, i: int|
                0 <= j2 < ji + 1 && 0 <= i < spec_row_fill(
                    rows,
                    o,
                    j2,
                    right as int - spec_row_px(rows, o, ht, j2, x as int, spec_col(draw_column_line), width as int),
                ) implies #[trigger] buffer_bg(
                *buf,
                spec_row_px(rows, o, ht, j2, x as int, spec_col(draw_column_line), width as int) + i,
                y as int + j2,
            ) == Some(spec_row_bar_tint(rows, o, j2)) by {
                if j2 < ji {
                    assert(buffer_bg(
                        *buf,
                        spec_row_px(rows, o, ht, j2, x as int, spec_col(draw_column_line), width as int) + i,
                        y as int + j2,
                    ) == buffer_bg(
                        before,
                        spec_row_px(rows, o, ht, j2, x as int, spec_col(draw_column_line), width as int) + i,
                        y as int + j2,
                    ));
                }
            }
            if x as int + ml < right as int {
                assert forall|j2: int|
                    0 <= j2 < ji + 1 && spec_row_is_spinner(rows, o, j2) implies #[trigger]
                    buffer_bg(
                    *buf,
                    spec_row_spin_x(rows, o, j2, x as int + ml, right as int - (x as int + ml)),
                    y as int + j2,
                ) == Some(spec_row_spin_tint(rows, o, j2)) by {
                    if j2 < ji {
                        assert(buffer_bg(
                            *buf,
                            spec_row_spin_x(
                                rows,
                                o,
                                j2,
                                x as int + ml,
                                right as int - (x as int + ml),
                            ),
                            y as int + j2,
                        ) == buffer_bg(
                            before,
                            spec_row_spin_x(
                                rows,
                                o,
                                j2,
                                x as int + ml,
                                right as int - (x as int + ml),
                            ),
                            y as int + j2,
                        ));
                    }
                }
            }
        }
        prev_level = Some(entries[offset as usize + j].0.level());
        j = j + 1;
    }
}

/// Draw one visible row of the progress column: the column line, the
/// connector prefix, and the row's bar, spinner or group filler with its
/// text.
#[verifier::rlimit(100)]
fn draw_row(
    entries: &[(Key, Value)],
    buf: &mut tui::buffer::Buffer,
    x: u16,
    y: u16,
    width: u16,
    height: u16,
    draw_column_line: bool,
    offset: u16,
    now: u64,
    j: usize,
    win: usize,
    max_label: u16,
    prev_level: Option<Level>,
)
    requires
        forall|i: int| 0 <= i < entries@.len() ==> (#[trigger] entries@[i].0).wf(),
        buffer_area(*old(buf)).0 <= x,
        x as int + width as int <= buffer_area(*old(buf)).0 + buffer_area(*old(buf)).2,
        buffer_area(*old(buf)).1 <= y,
        y as int + height as int <= buffer_area(*old(buf)).1 + buffer_area(*old(buf)).3,
        x as int + width as int <= u16::MAX as int,
        y as int + height as int <= u16::MAX as int,
        width > 0,
        j < win,
        win <= height as int,
        offset as int + win as int <= entries@.len(),
        win as int == spec_window_len(entries@.len() as int, offset as int, height as int),
        max_label as int == spec_max_label_width(entries@, offset as int, win as int),
        lift_level(prev_level) == spec_prev_level(entries@, offset as int, j as int),
    ensures
        buffer_area(*final (buf)) == buffer_area(*old(buf)),
        ({
            let rows = entries@;
            let o = offset as int;
            let ht = height as int;
            let ml = max_label as int;
            let ji = j as int;
            let ly = y as int + ji;
            let col = spec_col(draw_column_line);
            let right = x as int + width as int;
            let px = spec_row_px(rows, o, ht, ji, x as int, col, width as int);
            &&& draw_column_line ==> buffer_cell(*final (buf), x as int, ly) == seq!['│']
            &&& forall|i: int|
                0 <= i < spec_split_n(
                    spec_row_prefix(rows, o, ht, ji).len() as int,
                    x as int + col,
                    right,
                ) ==> #[trigger] buffer_cell(*final (buf), x as int + col + i, ly) == seq![
                    spec_row_prefix(rows, o, ht, ji)[i],
                ]
            &&& forall|i: int|
                0 <= i < spec_split_n(spec_row_text(rows, o, ji, ml, now).len() as int, px, right)
                    ==> #[trigger] buffer_cell(*final (buf), px + i, ly) == seq![
                    spec_row_text(rows, o, ji, ml, now)[i],
                ]
            &&& forall|i: int|
                0 <= i < spec_row_fill(rows, o, ji, right - px) ==> #[trigger] buffer_bg(
                    *final (buf),
                    px + i,
                    ly,
                ) == Some(spec_row_bar_tint(rows, o, ji))
            &&& spec_row_is_spinner(rows, o, ji) && x as int + ml < right ==> buffer_bg(
                *final (buf),
                spec_row_spin_x(rows, o, ji, x as int + ml, right - (x as int + ml)),
                ly,
            ) == Some(spec_row_spin_tint(rows, o, ji))
            &&& forall|i: int, j2: int|
                !(j2 == ly && x as int <= i < right) ==> #[trigger] buffer_cell(
                    *final (buf),
                    i,
                    j2,
                ) == buffer_cell(*old(buf), i, j2)
            &&& forall|i: int, j2: int|
                !(j2 == ly && x as int <= i < right) ==> #[trigger] buffer_bg(*final (buf), i, j2)
                    == buffer_bg(*old(buf), i, j2)
        }),
{
    let ghost rows = entries@;
    let ghost o = offset as int;
    let ghost ht = height as int;
    let ghost ml = max_label as int;
    let right: u16 = x + width;
    let col: u16 = if draw_column_line {
        1
    } else {
        0
    };
    proof {
        assert(col as int == spec_col(draw_column_line));
    }
    let ghost ar = buffer_area(*old(buf)).0 as int + buffer_area(*old(buf)).2 as int;
        let idx = offset as usize + j;
        let line_y: u16 = y + (j as u16);
        let mut vert: Vec<char> = Vec::new();
        vert.push('│');
        draw_text(buf, x, line_y, width, vert.as_slice(), None, None);
        proof {
            assert(spec_text_fit(1, width as int, x as int, ar) == 1);
            assert(buffer_cell(*buf, x as int + 0, line_y as int) == seq![vert@[0]]);
            assert(buffer_cell(*buf, x as int, line_y as int) == seq!['│']);
        }
        let cur = entries[idx].0.level();
        let next_level: Level = if j + 1 < win {
            entries[idx + 1].0.level()
        } else {
            0
        };
        let prefix = level_prefix(prev_level, cur, next_level);
        proof {
            assert(prefix@ == spec_row_prefix(rows, o, ht, j as int));
        }
        if col < width {
            proof {
                assert(spec_text_fit(prefix@.len() as int, (width - col) as int, (x + col) as int, ar)
                    == spec_split_n(prefix@.len() as int, x as int + spec_col(draw_column_line), right as int));
            }
            draw_text(buf, x + col, line_y, width - col, prefix.as_slice(), None, None);
        }
        let ghost s2 = *buf;
        let px_wide: u64 = x as u64 + col as u64 + prefix.len() as u64;
        let px: u16 = if px_wide >= right as u64 {
            right
        } else {
            px_wide as u16
        };
        let pw: u16 = right - px;
        proof {
            assert(px as int == spec_row_px(rows, o, ht, j as int, x as int, spec_col(draw_column_line), width as int));
        }
        proof {
            assert(x as int + spec_col(draw_column_line) + spec_split_n(
                spec_row_prefix(rows, o, ht, j as int).len() as int,
                x as int + spec_col(draw_column_line),
                right as int,
            ) == px as int);
        }
        draw_row_body(entries, buf, x, width, offset, now, j, max_label, px, line_y);
        proof {
            let ji = j as int;
            let ly = line_y as int;
            let cl = spec_col(draw_column_line);
            assert forall|i: int, j2: int| !(j2 == ly && x as int <= i < right as int)
                implies #[trigger] buffer_cell(*buf, i, j2) == buffer_cell(*old(buf), i, j2)
                && #[trigger] buffer_bg(*buf, i, j2) == buffer_bg(*old(buf), i, j2) by {
                assert(buffer_cell(s2, i, j2) == buffer_cell(*old(buf), i, j2));
                assert(buffer_cell(*buf, i, j2) == buffer_cell(s2, i, j2));
                assert(buffer_bg(s2, i, j2) == buffer_bg(*old(buf), i, j2));
                assert(buffer_bg(*buf, i, j2) == buffer_bg(s2, i, j2));
            }
            if draw_column_line {
                assert(buffer_cell(s2, x as int, ly) == seq!['│']);
                assert((x as int) < px as int);
                assert(buffer_cell(*buf, x as int, y as int + ji) == seq!['│']);
            }
            assert forall|i: int|
                0 <= i < spec_split_n(
                    spec_row_prefix(rows, o, ht, ji).len() as int,
                    x as int + cl,
                    right as int,
                ) implies #[trigger] buffer_cell(*buf, x as int + cl + i, ly) == seq![
                spec_row_prefix(rows, o, ht, ji)[i],
            ] by {
                assert(buffer_cell(s2, x as int + cl + i, ly) == seq![
                    spec_row_prefix(rows, o, ht, ji)[i],
                ]);
                assert(x as int + cl + i < px as int);
                assert(buffer_cell(*buf, x as int + cl + i, ly) == buffer_cell(
                    s2,
                    x as int + cl + i,
                    ly,
                ));
            }
        }
}
/// Draw the content part of one row, from `px` to the pane's right edge: a
/// determinate bar with its label, an indeterminate label with its spinner
/// block, or a pure group's filler and name.
#[verifier::rlimit(100)]
fn draw_row_body(
    entries: &[(Key, Value)],
    buf: &mut tui::buffer::Buffer,
    x: u16,
    width: u16,
    offset: u16,
    now: u64,
    j: usize,
    max_label: u16,
    px: u16,
    line_y: u16,
)
    requires
        buffer_area(*old(buf)).0 <= x,
        x as int + width as int <= buffer_area(*old(buf)).0 + buffer_area(*old(buf)).2,
        buffer_area(*old(buf)).1 <= line_y,
        (line_y as int) < buffer_area(*old(buf)).1 + buffer_area(*old(buf)).3,
        line_y < u16::MAX,
        x as int + width as int <= u16::MAX as int,
        width > 0,
        (offset as int + j as int) < entries@.len(),
        j < 65536,
        x <= px,
        px as int <= x as int + width as int,
    ensures
        buffer_area(*final (buf)) == buffer_area(*old(buf)),
        ({
            let rows = entries@;
            let o = offset as int;
            let ml = max_label as int;
            let ji = j as int;
            let ly = line_y as int;
            let right = x as int + width as int;
            let pxi = px as int;
            &&& forall|i: int|
                0 <= i < spec_split_n(spec_row_text(rows, o, ji, ml, now).len() as int, pxi, right)
                    ==> #[trigger] buffer_cell(*final (buf), pxi + i, ly) == seq![
                    spec_row_text(rows, o, ji, ml, now)[i],
                ]
            &&& forall|i: int|
                0 <= i < spec_row_fill(rows, o, ji, right - pxi) ==> #[trigger] buffer_bg(
                    *final (buf),
                    pxi + i,
                    ly,
                ) == Some(spec_row_bar_tint(rows, o, ji))
            &&& spec_row_is_spinner(rows, o, ji) && x as int + ml < right ==> buffer_bg(
                *final (buf),
                spec_row_spin_x(rows, o, ji, x as int + ml, right - (x as int + ml)),
                ly,
            ) == Some(spec_row_spin_tint(rows, o, ji))
            &&& forall|i: int, j2: int|
                !(j2 == ly && pxi <= i < right) ==> #[trigger] buffer_cell(*final (buf), i, j2)
                    == buffer_cell(*old(buf), i, j2)
            &&& forall|i: int, j2: int|
                !(j2 == ly && x as int <= i < right) ==> #[trigger] buffer_bg(*final (buf), i, j2)
                    == buffer_bg(*old(buf), i, j2)
        }),
{
    let ghost rows = entries@;
    let ghost o = offset as int;
    let ghost ml = max_label as int;
    let right: u16 = x + width;
    let ghost ar = buffer_area(*old(buf)).0 as int + buffer_area(*old(buf)).2 as int;
    let total = entries.len();
    proof {
        assert((offset as int + j as int) < total as int);
    }
    let idx = offset as usize + j;
    let pw: u16 = right - px;
        match &entries[idx].1.progress {
            Some(p) => {
                let determinate: Option<u32> = match p.done_at {
                    Some(d) => if d > 0 {
                        Some(d)
                    } else {
                        None
                    },
                    None => None,
                };
                let mut text: Vec<char> = vec![' '];
                let body = progress_format(&entries[idx].1.progress, 0);
                push_all(&mut text, body.as_slice());
                add_block_eta(&p.state, now, &mut text);
                proof {
                    assert(text@ =~= spec_row_text(rows, o, j as int, ml, now));
                }
                match determinate {
                    Some(done_at) => {
                        if pw > 0 {
                            let fill = bar_fill(pw, p.step, done_at);
                            let tint = bar_color(&p.state, p.step, done_at);
                            proof {
                                assert(fill as int == spec_row_fill(rows, o, j as int, pw as int));
                                assert(tint == spec_row_bar_tint(rows, o, j as int));
                            }
                            fill_region(buf, px, line_y, fill, 1, tint);
                            let ghost s3 = *buf;
                            put_split(
                                buf,
                                px,
                                line_y,
                                right,
                                px + fill,
                                text.as_slice(),
                                Some(Tint::Black),
                                Some(tint),
                                None,
                                None,
                            );
                            proof {
                                let fi = fill as int;
                                let pxi = px as int;
                                let n = spec_split_n(text@.len() as int, pxi, right as int);
                                let k = spec_split_k(
                                    text@.len() as int,
                                    pxi,
                                    right as int,
                                    pxi + fi,
                                );
                                assert forall|i: int| 0 <= i < fi implies #[trigger] buffer_bg(
                                    *buf,
                                    pxi + i,
                                    line_y as int,
                                ) == Some(tint) by {
                                    assert(buffer_bg(s3, pxi + i, line_y as int) == Some(tint));
                                    if i < k {
                                        assert(buffer_bg(*buf, pxi + i, line_y as int) == Some(
                                            tint,
                                        ));
                                    } else if i < n {
                                        assert(buffer_bg(*buf, pxi + i, line_y as int)
                                            == buffer_bg(s3, pxi + i, line_y as int));
                                    }
                                }
                            }
                        }
                    },
                    None => {
                        if pw > 0 {
                            proof {
                                assert(spec_text_fit(text@.len() as int, pw as int, px as int, ar)
                                    == spec_split_n(
                                    text@.len() as int,
                                    px as int,
                                    right as int,
                                ));
                            }
                            draw_text(buf, px, line_y, pw, text.as_slice(), None, None);
                        }
                        let bar_x_wide: u64 = x as u64 + max_label as u64;
                        if bar_x_wide < right as u64 {
                            let bar_x = bar_x_wide as u16;
                            let bar_w = right - bar_x;
                            let spin = spinner_offset(p.step, j as u16, bar_w);
                            let sx = bar_x + spin;
                            fill_region(buf, sx, line_y, 1, 1, spinner_color(&p.state));
                            proof {
                                assert(sx as int == spec_row_spin_x(
                                    rows,
                                    o,
                                    j as int,
                                    x as int + ml,
                                    right as int - (x as int + ml),
                                ));
                                assert(buffer_bg(*buf, sx as int, line_y as int) == Some(
                                    spec_row_spin_tint(rows, o, j as int),
                                ));
                            }
                        }
                    },
                }
            },
            None => {
                let mut text: Vec<char> = vec![' '];
                let filler = repeat_char('─', max_label);
                push_all(&mut text, filler.as_slice());
                text.push(' ');
                push_all(&mut text, entries[idx].1.name.as_slice());
                text.push(' ');
                proof {
                    assert(text@ =~= spec_row_text(rows, o, j as int, ml, now));
                }
                if pw > 0 {
                    proof {
                        assert(spec_text_fit(text@.len() as int, pw as int, px as int, ar)
                            == spec_split_n(text@.len() as int, px as int, right as int));
                    }
                    draw_text(buf, px, line_y, pw, text.as_slice(), None, None);
                }
            },
        }
}

/// The label of the overflow summary row.
pub open spec fn spec_overflow_label(vertical: bool, offset: int, more: int) -> Seq<char> {
    (if vertical {
        seq!['│']
    } else {
        Seq::empty()
    }) + seq![' ', '…'] + spec_decimal(offset) + " skipped and "@ + spec_decimal(more) + " more"@
}

/// How many rows stay unmentioned below the window once the summary row
/// itself is counted.
pub open spec fn spec_overflow_more(len: int, offset: int, visible: int) -> int {
    if len > offset + visible + 1 {
        len - (offset + visible + 1)
    } else {
        0
    }
}

/// The mean fraction of the rows the window hides, in millionths.
pub open spec fn spec_overflow_mean(rows: Seq<(Key, Value)>, offset: int, visible: int) -> int {
    let cnt = crate::viewport::spec_hidden_count(rows, offset, visible, 0);
    if cnt > 0 {
        crate::viewport::spec_hidden_ppm_sum(rows, offset, visible, 0) / cnt
    } else {
        0
    }
}

/// Draw the single summary row for everything the window hides: a bar for
/// the hidden rows' mean fraction, the skipped counts and a right-aligned
/// scroll-key legend.
#[verifier::rlimit(100)]
#[verifier::spinoff_prover]
pub fn draw_overflow(
    entries: &[(Key, Value)],
    buf: &mut tui::buffer::Buffer,
    x: u16,
    y: u16,
    width: u16,
    label_offset: u16,
    visible: u16,
    offset: u16,
)
    requires
        buffer_area(*old(buf)).0 <= x,
        x as int + width as int <= buffer_area(*old(buf)).0 + buffer_area(*old(buf)).2,
        buffer_area(*old(buf)).1 <= y,
        (y as int) < buffer_area(*old(buf)).1 + buffer_area(*old(buf)).3,
        x as int + width as int <= u16::MAX as int,
        y < u16::MAX,
    ensures
        buffer_area(*final (buf)) == buffer_area(*old(buf)),
        spec_overflow_cells(
            *final (buf),
            entries@,
            x as int,
            y as int,
            width as int,
            label_offset as int,
            visible as int,
            offset as int,
        ),
        ({
            let right = x as int + width as int;
            &&& forall|i: int, j: int|
                !(j == y as int && x as int <= i < right) ==> #[trigger] buffer_cell(
                    *final (buf),
                    i,
                    j,
                ) == buffer_cell(*old(buf), i, j)
            &&& forall|i: int, j: int|
                !(j == y as int && x as int <= i < right) ==> #[trigger] buffer_bg(
                    *final (buf),
                    i,
                    j,
                ) == buffer_bg(*old(buf), i, j)
        }),
{
    if width == 0 {
        proof {
            let mean = spec_overflow_mean(entries@, offset as int, visible as int);
            assert(0 * mean == 0) by (nonlinear_arith);
            assert(spec_bar_fill_ppm(0, mean) == 0);
        }
        return ;
    }
    let stats = overflow_stats(entries, offset, visible);
    let fill = bar_fill_ppm(width, stats.1);
    proof {
        assert(fill as int == spec_bar_fill_ppm(
            width as int,
            spec_overflow_mean(entries@, offset as int, visible as int),
        ));
    }
    fill_region(buf, x, y, fill, 1, Tint::Green);
    if fill < width {
        fill_region(buf, x + fill, y, width - fill, 1, Tint::Red);
    }
    let ghost after_fills = *buf;
    let right: u16 = x + width;
    let boundary: u16 = x + fill;
    let mut label: Vec<char> = Vec::new();
    if label_offset != 0 {
        label.push('│');
    }
    label.push(' ');
    label.push('…');
    let off_text = decimal_chars(offset as u64);
    push_all(&mut label, off_text.as_slice());
    let skip_text = chars_vec(" skipped and ");
    push_all(&mut label, skip_text.as_slice());
    let more: u64 = {
        let shown: u64 = offset as u64 + visible as u64 + 1;
        if (entries.len() as u64) > shown {
            entries.len() as u64 - shown
        } else {
            0
        }
    };
    let more_text = decimal_chars(more);
    push_all(&mut label, more_text.as_slice());
    let more_word = chars_vec(" more");
    push_all(&mut label, more_word.as_slice());
    proof {
        assert(label@ =~= spec_overflow_label(label_offset != 0, offset as int, more as int));
    }
    let ghost smore = more;
    let lx_wide: u64 = x as u64 + label_offset as u64;
    if lx_wide < right as u64 {
        let lx = lx_wide as u16;
        put_split(
            buf,
            lx,
            y,
            right,
            boundary,
            label.as_slice(),
            Some(Tint::Black),
            Some(Tint::Green),
            Some(Tint::Black),
            Some(Tint::Red),
        );
    }
    let help = chars_vec("⇊ = d|↓ = j|⇈ = u|↑ = k ");
    let hw = help.len();
    let hx: u16 = if (hw as u64) <= width as u64 {
        right - (hw as u16)
    } else {
        x
    };
    let ghost after_label = *buf;
    if hx < right {
        put_split(
            buf,
            hx,
            y,
            right,
            boundary,
            help.as_slice(),
            Some(Tint::Black),
            Some(Tint::Green),
            Some(Tint::Black),
            Some(Tint::Red),
        );
    }
    proof {
        let yy = y as int;
        let ri = right as int;
        let fi = fill as int;
        let lab = spec_overflow_label(label_offset != 0, offset as int, smore as int);
        let lx = x as int + label_offset as int;
        let nl = spec_split_n(lab.len() as int, lx, ri);
        let hh = help@;
        let hxi = hx as int;
        let nh = spec_split_n(hh.len() as int, hxi, ri);
        assert(smore as int == spec_overflow_more(
            entries@.len() as int,
            offset as int,
            visible as int,
        ));
        assert forall|i: int| x as int <= i < x as int + fi implies #[trigger] buffer_bg(
            *buf,
            i,
            yy,
        ) == Some(Tint::Green) by {
            assert(buffer_bg(after_fills, i, yy) == Some(Tint::Green));
            if lx < ri {
                let kl = spec_split_k(lab.len() as int, lx, ri, boundary as int);
                if lx <= i < lx + nl {
                    if i - lx < kl {
                        assert(buffer_bg(after_label, lx + (i - lx), yy) == Some(Tint::Green));
                    } else {
                        assert(lx + kl >= boundary as int);
                    }
                }
            }
            if hx < right {
                let kh = spec_split_k(hh.len() as int, hxi, ri, boundary as int);
                if hxi <= i < hxi + nh {
                    if i - hxi < kh {
                        assert(buffer_bg(*buf, hxi + (i - hxi), yy) == Some(Tint::Green));
                    } else {
                        assert(hxi + kh >= boundary as int);
                    }
                }
            }
        }
        assert forall|i: int| x as int + fi <= i < ri implies #[trigger] buffer_bg(*buf, i, yy)
            == Some(Tint::Red) by {
            assert(buffer_bg(after_fills, i, yy) == Some(Tint::Red));
            if lx < ri {
                let kl = spec_split_k(lab.len() as int, lx, ri, boundary as int);
                if lx <= i < lx + nl {
                    if i - lx < kl {
                        assert(lx + (i - lx) < boundary as int);
                        assert(buffer_bg(after_label, lx + (i - lx), yy) == Some(Tint::Green));
                    } else {
                        assert(buffer_bg(after_label, lx + (i - lx), yy) == Some(Tint::Red));
                    }
                }
            }
            if hx < right {
                let kh = spec_split_k(hh.len() as int, hxi, ri, boundary as int);
                if hxi <= i < hxi + nh {
                    if i - hxi < kh {
                        assert(hxi + (i - hxi) < boundary as int);
                    } else {
                        assert(buffer_bg(*buf, hxi + (i - hxi), yy) == Some(Tint::Red));
                    }
                }
            }
        }
        assert forall|i: int|
            0 <= i < nl && !(hxi <= lx + i < hxi + nh) && lx < ri implies #[trigger] buffer_cell(
            *buf,
            lx + i,
            yy,
        ) == seq![lab[i]] by {
            assert(buffer_cell(after_label, lx + i, yy) == seq![lab[i]]);
        }
    }
}

/// The height left for entry rows once the overflow summary row, where one
/// is needed, is reserved.
pub open spec fn spec_effective_height(len: int, height: int, old_offset: int) -> int {
    let o1 = spec_clamped_offset(old_offset, len, height);
    if spec_needs_overflow_row(len, height, o1) {
        if height > 0 {
            height - 1
        } else {
            0
        }
    } else {
        height
    }
}

/// The scroll offset a render pass settles on: clamped against the full
/// height, then against the height left after reserving the summary row.
pub open spec fn spec_pane_offset(old_offset: int, len: int, height: int) -> int {
    let o1 = spec_clamped_offset(old_offset, len, height);
    spec_clamped_offset(o1, len, spec_effective_height(len, height, old_offset))
}

/// The tree column width a render pass records: the widest visible
/// tree-column text, or zero when the pane is too narrow for a tree column.
pub open spec fn spec_pane_tree_width(
    rows: Seq<(Key, Value)>,
    width: int,
    height: int,
    old_offset: int,
) -> int {
    let o = spec_pane_offset(old_offset, rows.len() as int, height);
    let h2 = spec_effective_height(rows.len() as int, height, old_offset);
    if width / 2 >= MIN_TREE_WIDTH as int {
        spec_max_tree_width(rows, o, h2, spec_window_len(rows.len() as int, o, h2))
    } else {
        0
    }
}

/// Lay out the tree column and the progress column inside the given
/// rectangle, draw every visible row and the overflow summary where needed,
/// and record the clamped offset and the observed tree column width back
/// into the pane state.
pub fn pane(
    entries: &[(Key, Value)],
    buf: &mut tui::buffer::Buffer,
    x: u16,
    y: u16,
    width: u16,
    height: u16,
    state: &mut State,
    now: u64,
)
    requires
        forall|i: int| 0 <= i < entries@.len() ==> (#[trigger] entries@[i].0).wf(),
        buffer_area(*old(buf)).0 <= x,
        x as int + width as int <= buffer_area(*old(buf)).0 + buffer_area(*old(buf)).2,
        buffer_area(*old(buf)).1 <= y,
        y as int + height as int <= buffer_area(*old(buf)).1 + buffer_area(*old(buf)).3,
        x as int + width as int <= u16::MAX as int,
        y as int + height as int <= u16::MAX as int,
    ensures
        buffer_area(*final (buf)) == buffer_area(*old(buf)),
        final (state).task_offset as int == spec_pane_offset(
            old(state).task_offset as int,
            entries@.len() as int,
            height as int,
        ),
        final (state).next_tree_column_width == old(state).next_tree_column_width,
        entries@.len() == 0 ==> final (state).last_tree_column_width == old(
            state,
        ).last_tree_column_width,
        entries@.len() > 0 ==> final (state).last_tree_column_width == Some(
            spec_pane_tree_width(
                entries@,
                width as int,
                height as int,
                old(state).task_offset as int,
            ) as u16,
        ),
        entries@.len() == 0 ==> forall|i: int, j2: int|
            #[trigger] buffer_cell(*final (buf), i, j2) == buffer_cell(*old(buf), i, j2),
        entries@.len() == 0 ==> forall|i: int, j2: int|
            #[trigger] buffer_bg(*final (buf), i, j2) == buffer_bg(*old(buf), i, j2),
        entries@.len() > 0 ==> spec_pane_cells(
            *final (buf),
            entries@,
            x as int,
            y as int,
            width as int,
            height as int,
            old(state).next_tree_column_width,
            old(state).task_offset as int,
            now,
        ),
        forall|i: int, j2: int|
            !(x as int <= i < x as int + width as int && y as int <= j2 < y as int
                + height as int) ==> #[trigger] buffer_cell(*final (buf), i, j2) == buffer_cell(
                *old(buf),
                i,
                j2,
            ),
        forall|i: int, j2: int|
            !(x as int <= i < x as int + width as int && y as int <= j2 < y as int
                + height as int) ==> #[trigger] buffer_bg(*final (buf), i, j2) == buffer_bg(
                *old(buf),
                i,
                j2,
            ),
{
    let o1 = sanitize_offset(state.task_offset, entries.len(), height);
    let needs = needs_overflow_row(entries.len(), height, o1);
    let h2: u16 = if needs {
        if height > 0 {
            height - 1
        } else {
            0
        }
    } else {
        height
    };
    let o2 = sanitize_offset(o1, entries.len(), h2);
    state.task_offset = o2;
    if entries.is_empty() {
        return ;
    }
    let initial: u16 = width / 2;
    let desired: u16 = match state.next_tree_column_width {
        Some(w) => w,
        None => initial,
    };
    let tree_w: u16 = if desired <= width {
        desired
    } else {
        width
    };
    proof {
        assert(h2 as int == spec_effective_height(
            entries@.len() as int,
            height as int,
            old(state).task_offset as int,
        ));
        assert(o2 as int == spec_pane_offset(
            old(state).task_offset as int,
            entries@.len() as int,
            height as int,
        ));
        assert(desired as int == spec_pane_desired(
            width as int,
            old(state).next_tree_column_width,
        ));
        assert(tree_w as int == spec_pane_tree_w(width as int, old(state).next_tree_column_width));
    }
    if initial >= MIN_TREE_WIDTH {
        let computed = draw_tree(entries, buf, x, y, tree_w, h2, o2);
        state.last_tree_column_width = Some(computed);
    } else {
        state.last_tree_column_width = Some(0);
    }
    let ghost t1 = *buf;
    draw_progress(entries, buf, x + tree_w, y, width - tree_w, h2, desired != 0, o2, now);
    let ghost t2 = *buf;
    proof {
        let rows = entries@;
        let win = spec_window_len(rows.len() as int, o2 as int, h2 as int);
        assert forall|i: int, j2: int|
            y as int <= j2 < y as int + win && x as int <= i < x as int + tree_w as int implies
            #[trigger] buffer_cell(t2, i, j2) == buffer_cell(t1, i, j2) by {}
        if initial >= MIN_TREE_WIDTH {
            lemma_tree_cells_stable(
                t1,
                t2,
                rows,
                x as int,
                y as int,
                tree_w as int,
                h2 as int,
                o2 as int,
            );
        }
    }
    if needs && height > 0 {
        draw_overflow(entries, buf, x, y + h2, width, tree_w, h2, o2);
    }
    proof {
        let rows = entries@;
        let win = spec_window_len(rows.len() as int, o2 as int, h2 as int);
        assert forall|i: int, j2: int|
            y as int <= j2 < y as int + win && x as int <= i < x as int + width as int implies
            #[trigger] buffer_cell(*buf, i, j2) == buffer_cell(t2, i, j2) by {}
        assert forall|i: int, j2: int|
            y as int <= j2 < y as int + win && x as int <= i < x as int + width as int implies
            #[trigger] buffer_bg(*buf, i, j2) == buffer_bg(t2, i, j2) by {}
        if initial >= MIN_TREE_WIDTH {
            lemma_tree_cells_stable(
                t2,
                *buf,
                rows,
                x as int,
                y as int,
                tree_w as int,
                h2 as int,
                o2 as int,
            );
        }
        lemma_progress_cells_stable(
            t2,
            *buf,
            rows,
            x as int + tree_w as int,
            y as int,
            width as int - tree_w as int,
            h2 as int,
            desired != 0,
            o2 as int,
            now,
        );
    }
    proof {
        assert forall|i: int, j2: int|
            !(x as int <= i < x as int + width as int && y as int <= j2 < y as int
                + height as int) implies #[trigger] buffer_cell(*buf, i, j2) == buffer_cell(
            *old(buf),
            i,
            j2,
        ) && #[trigger] buffer_bg(*buf, i, j2) == buffer_bg(*old(buf), i, j2) by {
            assert(buffer_cell(t1, i, j2) == buffer_cell(*old(buf), i, j2));
            assert(buffer_bg(t1, i, j2) == buffer_bg(*old(buf), i, j2));
            assert(buffer_cell(t2, i, j2) == buffer_cell(t1, i, j2));
            assert(buffer_bg(t2, i, j2) == buffer_bg(t1, i, j2));
            assert(buffer_cell(*buf, i, j2) == buffer_cell(t2, i, j2));
            assert(buffer_bg(*buf, i, j2) == buffer_bg(t2, i, j2));
        }
    }
}

/// With the whole snapshot visible and no scrolling there is nothing to
/// summarize: no overflow row is reserved, and the effective height stays
/// the full height.
pub proof fn lemma_no_overflow_row_when_everything_fits(len: int, height: int, offset: int)
    requires
        0 <= len <= height,
        offset == 0,
    ensures
        !spec_needs_overflow_row(len, height, spec_clamped_offset(offset, len, height)),
        spec_effective_height(len, height, offset) == height,
{
}

/// The offset a render pass settles on is clamped: for every input offset it
/// lands in `[0, max(0, total - h)]`, where `h` is the height left after the
/// overflow summary row is reserved, where one is needed.
pub proof fn lemma_pane_offset_clamped(old_offset: int, len: int, height: int)
    requires
        0 <= old_offset,
        0 <= len,
        0 <= height,
    ensures
        0 <= spec_pane_offset(old_offset, len, height),
        spec_pane_offset(old_offset, len, height) <= (if len - spec_effective_height(
            len,
            height,
            old_offset,
        ) > 0 {
            len - spec_effective_height(len, height, old_offset)
        } else {
            0
        }),
{
}

/// Whether a buffer can be drawn into at all: it has cells, and its far
/// edges still fit cell coordinates.
pub open spec fn spec_drawable(area: (u16, u16, u16, u16)) -> bool {
    &&& area.2 > 0
    &&& area.3 > 0
    &&& area.0 as int + area.2 as int <= u16::MAX as int
    &&& area.1 as int + area.3 as int <= u16::MAX as int
}

/// Render one frame into the whole buffer: the headline row on top and the
/// entry pane below it. A degenerate buffer (no cells, or edges past what a
/// cell coordinate can hold) draws nothing and reports `false`.
pub fn draw_frame(
    entries: &[(Key, Value)],
    buf: &mut tui::buffer::Buffer,
    state: &mut State,
    interrupt_mode: InterruptDrawInfo,
    now: u64,
) -> (r: bool)
    requires
        forall|i: int| 0 <= i < entries@.len() ==> (#[trigger] entries@[i].0).wf(),
    ensures
        buffer_area(*final (buf)) == buffer_area(*old(buf)),
        r == spec_drawable(buffer_area(*old(buf))),
        r && buffer_area(*old(buf)).3 > 1 ==> {
            &&& final (state).task_offset as int == spec_pane_offset(
                old(state).task_offset as int,
                entries@.len() as int,
                buffer_area(*old(buf)).3 as int - 1,
            )
            &&& final (state).next_tree_column_width == old(state).next_tree_column_width
        },
        !(r && buffer_area(*old(buf)).3 > 1) ==> *final (state) == *old(state),
        r ==> spec_headline_cells(
            *final (buf),
            entries@,
            interrupt_mode,
            buffer_area(*old(buf)).0 as int,
            buffer_area(*old(buf)).1 as int,
            buffer_area(*old(buf)).2 as int,
        ),
        r && buffer_area(*old(buf)).3 > 1 && entries@.len() > 0 ==> spec_pane_cells(
            *final (buf),
            entries@,
            buffer_area(*old(buf)).0 as int,
            buffer_area(*old(buf)).1 as int + 1,
            buffer_area(*old(buf)).2 as int,
            buffer_area(*old(buf)).3 as int - 1,
            old(state).next_tree_column_width,
            old(state).task_offset as int,
            now,
        ),
{
    let area = buf_region(buf);
    let (ax, ay, aw, ah) = area;
    if aw == 0 || ah == 0 {
        return false;
    }
    if ax as u32 + aw as u32 > u16::MAX as u32 || ay as u32 + ah as u32 > u16::MAX as u32 {
        return false;
    }
    headline(entries, interrupt_mode, buf, ax, ay, aw);
    let ghost mid = *buf;
    if ah > 1 {
        pane(entries, buf, ax, ay + 1, aw, ah - 1, state, now);
        proof {
            assert forall|i: int, j2: int| j2 == ay as int && ax as int <= i < ax as int
                + aw as int implies #[trigger] buffer_cell(*buf, i, j2) == buffer_cell(
                mid,
                i,
                j2,
            ) by {}
            lemma_headline_cells_stable(
                mid,
                *buf,
                entries@,
                interrupt_mode,
                ax as int,
                ay as int,
                aw as int,
            );
        }
    }
    true
}

/// Rendering the same snapshot twice with unchanged inputs produces
/// identical output: any two buffers that satisfy one pane render's cell
/// contract for the same snapshot, geometry, remembered width, offset and
/// clock agree on every cell the contract pins. Spelled out here for the
/// progress column's row texts; the same instantiation applies to each of
/// the other pinned cell families of `spec_pane_cells`.
pub proof fn lemma_render_idempotent(
    b1: tui::buffer::Buffer,
    b2: tui::buffer::Buffer,
    rows: Seq<(Key, Value)>,
    x: int,
    y: int,
    width: int,
    height: int,
    next: Option<u16>,
    old_offset: int,
    now: u64,
)
    requires
        spec_pane_cells(b1, rows, x, y, width, height, next, old_offset, now),
        spec_pane_cells(b2, rows, x, y, width, height, next, old_offset, now),
    ensures
        ({
            let tw = spec_pane_tree_w(width, next);
            let h2 = spec_effective_height(rows.len() as int, height, old_offset);
            let o2 = spec_pane_offset(old_offset, rows.len() as int, height);
            let win = spec_window_len(rows.len() as int, o2, h2);
            let ml = spec_max_label_width(rows, o2, win);
            let col = spec_col(spec_pane_desired(width, next) != 0);
            let px_base = x + tw;
            let pw = width - tw;
            width - tw > 0 ==> forall|jj: int, i: int|
                0 <= jj < win && 0 <= i < spec_split_n(
                    spec_row_text(rows, o2, jj, ml, now).len() as int,
                    spec_row_px(rows, o2, h2, jj, px_base, col, pw),
                    px_base + pw,
                ) ==> #[trigger] buffer_cell(
                    b1,
                    spec_row_px(rows, o2, h2, jj, px_base, col, pw) + i,
                    y + jj,
                ) == buffer_cell(b2, spec_row_px(rows, o2, h2, jj, px_base, col, pw) + i, y + jj)
        }),
{
    let tw = spec_pane_tree_w(width, next);
    let h2 = spec_effective_height(rows.len() as int, height, old_offset);
    let o2 = spec_pane_offset(old_offset, rows.len() as int, height);
    let win = spec_window_len(rows.len() as int, o2, h2);
    let ml = spec_max_label_width(rows, o2, win);
    let col = spec_col(spec_pane_desired(width, next) != 0);
    let px_base = x + tw;
    let pw = width - tw;
    if pw > 0 {
        assert forall|jj: int, i: int|
            0 <= jj < win && 0 <= i < spec_split_n(
                spec_row_text(rows, o2, jj, ml, now).len() as int,
                spec_row_px(rows, o2, h2, jj, px_base, col, pw),
                px_base + pw,
            ) implies #[trigger] buffer_cell(
            b1,
            spec_row_px(rows, o2, h2, jj, px_base, col, pw) + i,
            y + jj,
        ) == buffer_cell(b2, spec_row_px(rows, o2, h2, jj, px_base, col, pw) + i, y + jj) by {
            assert(buffer_cell(b1, spec_row_px(rows, o2, h2, jj, px_base, col, pw) + i, y + jj)
                == seq![spec_row_text(rows, o2, jj, ml, now)[i]]);
            assert(buffer_cell(b2, spec_row_px(rows, o2, h2, jj, px_base, col, pw) + i, y + jj)
                == seq![spec_row_text(rows, o2, jj, ml, now)[i]]);
        }
    }
}

} // verus!
