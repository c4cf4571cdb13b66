//! Scrolling: clamping the viewport offset, deciding whether an overflow
//! summary row is needed, and aggregating the rows a scrolled window hides.

use crate::key::Key;
use crate::progress::{Value, FRACTION_SCALE};
use vstd::arithmetic::div_mod::{lemma_div_is_ordered, lemma_div_multiples_vanish};
use vstd::prelude::*;

verus! {

/// The largest fraction a single row can report, in millionths: a full
/// counter against a target of one.
pub const MAX_ROW_PPM: u64 = 4_294_967_295_000_000;

/// An offset clamped into `[0, max(0, total - height)]`.
pub open spec fn spec_clamped_offset(offset: int, total: int, height: int) -> int {
    let cap = if total - height > 0 {
        total - height
    } else {
        0
    };
    if offset <= cap {
        offset
    } else {
        cap
    }
}

/// Clamp a scroll offset to the snapshot length and the visible height, so
/// the window never starts past the last page.
pub fn sanitize_offset(offset: u16, num_entries: usize, height: u16) -> (r: u16)
    ensures
        r as int == spec_clamped_offset(offset as int, num_entries as int, height as int),
{
    let cap: usize = if num_entries > height as usize {
        num_entries - height as usize
    } else {
        0
    };
    if offset as usize <= cap {
        offset
    } else {
        cap as u16
    }
}

/// Whether a summary row must be reserved: the snapshot does not fit the
/// height, or the window is scrolled past at least one row.
pub open spec fn spec_needs_overflow_row(total: int, height: int, offset: int) -> bool {
    total > height || (if offset <= total {
        offset
    } else {
        total
    }) > 0
}

/// Decide whether one row at the bottom must be kept for the overflow
/// summary.
pub fn needs_overflow_row(total: usize, height: u16, offset: u16) -> (r: bool)
    ensures
        r == spec_needs_overflow_row(total as int, height as int, offset as int),
{
    total > height as usize || (offset > 0 && total > 0)
}

/// Whether row `i` lies inside the visible window.
pub open spec fn in_window(i: int, offset: int, visible: int) -> bool {
    offset <= i < offset + visible
}

/// How many rows of the suffix starting at `i` the window hides.
pub open spec fn spec_hidden_count(
    rows: Seq<(Key, Value)>,
    offset: int,
    visible: int,
    i: int,
) -> int
    decreases rows.len() - i,
{
    if i < 0 || i >= rows.len() {
        0
    } else {
        (if in_window(i, offset, visible) {
            0int
        } else {
            1int
        }) + spec_hidden_count(rows, offset, visible, i + 1)
    }
}

/// The fraction a row contributes to the overflow summary, in millionths:
/// its progress fraction, or zero when none is computable.
pub open spec fn spec_row_ppm(v: Value) -> int {
    match v.progress {
        Some(p) => match p.spec_fraction_ppm() {
            Some(f) => f as int,
            None => 0,
        },
        None => 0,
    }
}

/// The summed fractions of the hidden rows of the suffix starting at `i`,
/// in millionths.
pub open spec fn spec_hidden_ppm_sum(
    rows: Seq<(Key, Value)>,
    offset: int,
    visible: int,
    i: int,
) -> int
    decreases rows.len() - i,
{
    if i < 0 || i >= rows.len() {
        0
    } else {
        (if in_window(i, offset, visible) {
            0
        } else {
            spec_row_ppm(rows[i].1)
        }) + spec_hidden_ppm_sum(rows, offset, visible, i + 1)
    }
}

/// Aggregate every row outside the visible window `[offset, offset +
/// visible)` into a count and the mean fraction in millionths; rows with no
/// computable fraction contribute zero, and with nothing hidden the mean is
/// zero.
pub fn overflow_stats(entries: &[(Key, Value)], offset: u16, visible: u16) -> (r: (usize, u64))
    ensures
        r.0 == spec_hidden_count(entries@, offset as int, visible as int, 0),
        r.0 > 0 ==> r.1 as int == spec_hidden_ppm_sum(entries@, offset as int, visible as int, 0)
            / r.0 as int,
        r.0 == 0 ==> r.1 == 0,
        r.1 <= MAX_ROW_PPM,
{
    let n = entries.len();
    let mut count: usize = 0;
    let mut sum: u128 = 0;
    let mut i: usize = n;
    while i > 0
        invariant
            i <= n == entries@.len(),
            count as int == spec_hidden_count(entries@, offset as int, visible as int, i as int),
            sum as int == spec_hidden_ppm_sum(entries@, offset as int, visible as int, i as int),
            count <= n - i,
            sum as int <= count as int * MAX_ROW_PPM as int,
        decreases i,
    {
        i = i - 1;
        let inside = offset as usize <= i && (i as u64) < offset as u64 + visible as u64;
        if !inside {
            let row_ppm: u64 = match &entries[i].1.progress {
                Some(p) => match p.fraction_ppm() {
                    Some(f) => f,
                    None => 0,
                },
                None => 0,
            };
            proof {
                assert(row_ppm as int == spec_row_ppm(entries@[i as int].1));
                assert(row_ppm <= MAX_ROW_PPM);
            }
            count = count + 1;
            sum = sum + row_ppm as u128;
        }
    }
    if count == 0 {
        (0, 0)
    } else {
        let mean_wide: u128 = sum / (count as u128);
        proof {
            lemma_div_is_ordered(sum as int, count as int * MAX_ROW_PPM as int, count as int);
            lemma_div_multiples_vanish(MAX_ROW_PPM as int, count as int);
        }
        let mean: u64 = mean_wide as u64;
        (count, mean)
    }
}

} // verus!
