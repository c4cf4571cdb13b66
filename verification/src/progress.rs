//! State of one entry of the task hierarchy: an optional progress record
//! with a step counter, an optional completion target, a unit label and a
//! running / blocked / halted state.

use crate::ext::{duration_chars, duration_text_of};
use crate::text::{push_all, repeat_char, spec_decimal, spec_repeat, decimal_chars};
use vstd::prelude::*;

verus! {

/// The counter of a progress record.
pub type ProgressStep = u32;

/// Scale used for fixed-point progress fractions: one million parts equal a
/// fraction of 1.0.
pub const FRACTION_SCALE: u64 = 1_000_000;

/// Whether a task is making progress, or why it is not.
///
/// A blocked or halted task carries the reason and, optionally, the moment
/// (in seconds of some caller-chosen clock) at which it expects to resume.
#[derive(Clone, Debug, PartialEq, Eq)]
pub enum ProgressState {
    Running,
    Blocked(Vec<char>, Option<u64>),
    Halted(Vec<char>, Option<u64>),
}

/// Progress of one entry: `step` out of an optional `done_at` target.
#[derive(Clone, Debug, PartialEq, Eq)]
pub struct Progress {
    pub step: ProgressStep,
    pub done_at: Option<ProgressStep>,
    pub unit: Option<Vec<char>>,
    pub state: ProgressState,
}

/// What one snapshot row shows: a name and optional progress; a row without
/// progress is a pure group.
#[derive(Clone, Debug, PartialEq, Eq)]
pub struct Value {
    pub name: Vec<char>,
    pub progress: Option<Progress>,
}

impl Progress {
    /// The completed fraction in millionths: `step / done_at`, defined only
    /// when a nonzero target is known.
    pub open spec fn spec_fraction_ppm(self) -> Option<u64> {
        match self.done_at {
            Some(done_at) => if done_at > 0 {
                Some(((self.step as int * FRACTION_SCALE as int) / done_at as int) as u64)
            } else {
                None
            },
            None => None,
        }
    }

    /// The numeric portion of a row's label: the step alone, or the step
    /// against its target.
    pub open spec fn spec_counts_text(self) -> Seq<char> {
        match self.done_at {
            Some(done_at) => spec_decimal(self.step as int) + seq![' ', '/', ' '] + spec_decimal(
                done_at as int,
            ),
            None => spec_decimal(self.step as int),
        }
    }

    /// A progress label: the counts and, when known, the unit.
    pub open spec fn spec_label(self) -> Seq<char> {
        match self.unit {
            Some(unit) => self.spec_counts_text() + seq![' '] + unit@,
            None => self.spec_counts_text(),
        }
    }

    /// The completed fraction in millionths, when a nonzero target is known;
    /// `None` renders as an indeterminate spinner.
    pub fn fraction_ppm(&self) -> (r: Option<u64>)
        ensures
            r == self.spec_fraction_ppm(),
    {
        match self.done_at {
            Some(done_at) => {
                if done_at > 0 {
                    let scaled: u64 = (self.step as u64) * FRACTION_SCALE;
                    Some(scaled / (done_at as u64))
                } else {
                    None
                }
            },
            None => None,
        }
    }
}

/// What stands in the label column of one row: a progress label, or a dashed
/// filler line of `dash_width` for a pure group.
pub open spec fn spec_progress_format(progress: Option<Progress>, dash_width: int) -> Seq<char> {
    match progress {
        Some(p) => p.spec_label(),
        None => spec_repeat('─', dash_width),
    }
}

/// Render the label column text of one row: `"step / done_at unit"` (target
/// and unit only where known), or a dashed filler of `dash_width` characters
/// for a pure group.
pub fn progress_format(progress: &Option<Progress>, dash_width: u16) -> (r: Vec<char>)
    ensures
        r@ == spec_progress_format(*progress, dash_width as int),
{
    match progress {
        Some(p) => {
            let mut out = decimal_chars(p.step as u64);
            if let Some(done_at) = p.done_at {
                out.push(' ');
                out.push('/');
                out.push(' ');
                let done_text = decimal_chars(done_at as u64);
                push_all(&mut out, done_text.as_slice());
                proof {
                    assert(out@ =~= p.spec_counts_text());
                }
            }
            if let Some(unit) = &p.unit {
                out.push(' ');
                push_all(&mut out, unit.as_slice());
                proof {
                    assert(out@ =~= p.spec_label());
                }
            }
            out
        },
        None => repeat_char('─', dash_width),
    }
}

/// The bracketed annotation of a blocked or halted row: the reason and, when
/// the resume time still lies ahead of `now`, the remaining duration and the
/// word for what happens then.
pub open spec fn spec_eta_annotation(
    reason: Seq<char>,
    eta: Option<u64>,
    now: u64,
    word: Seq<char>,
) -> Seq<char> {
    seq![' ', '['] + reason + seq![']'] + (match eta {
        Some(t) => if t > now {
            seq![' ', '→', ' '] + duration_text_of((t - now) as u64) + seq![' ', 't', 'o', ' ']
                + word
        } else {
            Seq::empty()
        },
        None => Seq::empty(),
    })
}

/// What a row's state appends to its label: nothing while running, and the
/// bracketed reason (with the remaining time, if a future resume moment is
/// known) when blocked or halted.
pub open spec fn spec_block_eta(state: ProgressState, now: u64) -> Seq<char> {
    match state {
        ProgressState::Running => Seq::empty(),
        ProgressState::Blocked(reason, eta) => spec_eta_annotation(
            reason@,
            eta,
            now,
            seq!['u', 'n', 'b', 'l', 'o', 'c', 'k'],
        ),
        ProgressState::Halted(reason, eta) => spec_eta_annotation(
            reason@,
            eta,
            now,
            seq!['c', 'o', 'n', 't', 'i', 'n', 'u', 'e'],
        ),
    }
}

/// Append the blocked/halted annotation for `state` to a label, given the
/// current time in the same clock as the recorded resume moments.
pub fn add_block_eta(state: &ProgressState, now: u64, text: &mut Vec<char>)
    ensures
        final (text)@ == old(text)@ + spec_block_eta(*state, now),
{
    match state {
        ProgressState::Running => {},
        ProgressState::Blocked(reason, eta) => {
            push_annotation(reason, eta, now, true, text);
        },
        ProgressState::Halted(reason, eta) => {
            push_annotation(reason, eta, now, false, text);
        },
    }
}

/// Append one bracketed reason, with the remaining duration where a future
/// resume moment is known; `blocked` picks the closing word.
fn push_annotation(
    reason: &Vec<char>,
    eta: &Option<u64>,
    now: u64,
    blocked: bool,
    text: &mut Vec<char>,
)
    ensures
        final (text)@ == old(text)@ + spec_eta_annotation(
            reason@,
            *eta,
            now,
            if blocked {
                seq!['u', 'n', 'b', 'l', 'o', 'c', 'k']
            } else {
                seq!['c', 'o', 'n', 't', 'i', 'n', 'u', 'e']
            },
        ),
{
    text.push(' ');
    text.push('[');
    push_all(text, reason.as_slice());
    text.push(']');
    if let Some(t) = eta {
        if *t > now {
            text.push(' ');
            text.push('→');
            text.push(' ');
            let remaining = duration_chars(*t - now);
            push_all(text, remaining.as_slice());
            text.push(' ');
            text.push('t');
            text.push('o');
            text.push(' ');
            if blocked {
                text.push('u');
                text.push('n');
                text.push('b');
                text.push('l');
                text.push('o');
                text.push('c');
                text.push('k');
            } else {
                text.push('c');
                text.push('o');
                text.push('n');
                text.push('t');
                text.push('i');
                text.push('n');
                text.push('u');
                text.push('e');
            }
        }
    }
    proof {
        assert(text@ =~= old(text)@ + spec_eta_annotation(
            reason@,
            *eta,
            now,
            if blocked {
                seq!['u', 'n', 'b', 'l', 'o', 'c', 'k']
            } else {
                seq!['c', 'o', 'n', 't', 'i', 'n', 'u', 'e']
            },
        ));
    }
}

} // verus!
