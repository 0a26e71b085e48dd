//! The progress line of a training run: how far the epoch is, as counts, as a
//! percentage and as a bar.

use crate::linalg::render::{decimal, push_decimal, push_text};
use crate::linalg::text::text_of;
use vstd::prelude::*;

verus! {

/// The width of the bar before any measure is shown beside it.
pub const FULL_WIDTH: u64 = 40;

/// What a measure takes from the width of the bar beside its name.
pub const MEASURE_PADDING: u64 = 8;

/// The character at place `i` of a bar that has come to place `progress`: the
/// head at `progress`, the done part before it, the rest after it.
pub open spec fn bar_char(i: int, progress: int) -> char {
    if i == progress {
        '>'
    } else if i < progress {
        '='
    } else {
        '-'
    }
}

/// The bar of `width + 1` places that has come to place `progress`.
pub open spec fn bar(progress: int, width: int) -> Seq<char> {
    Seq::new((width + 1) as nat, |i: int| bar_char(i, progress))
}

/// The progress line: the counts, the percentage, the bar, and the measures.
pub open spec fn progress_text(current: int, total: int, width: int, measures: Seq<char>) -> Seq<
    char,
> {
    decimal(current as nat) + " / "@ + decimal(total as nat) + " ("@ + decimal(
        (current * 100 / total) as nat,
    ) + "%) ["@ + bar(current * width / total, width) + "] - "@ + measures
}

/// The width that is left for the bar when a measure with a name of
/// `name_len` characters is shown beside it.
pub fn width_with_measure(width: u64, name_len: usize) -> (narrower: u64)
    requires
        name_len + MEASURE_PADDING <= width,
    ensures
        narrower == width - (name_len + MEASURE_PADDING),
{
    width - (name_len as u64 + MEASURE_PADDING)
}

/// The progress line of an epoch that has seen `current` of `total` rows,
/// with a bar of `width + 1` places and the text of the measures after it.
pub fn progress_line(current: u64, total: u64, width: u64, measures: &str) -> (line: String)
    requires
        total > 0,
        current * width <= u64::MAX,
        current * 100 <= u64::MAX,
        width < u64::MAX,
    ensures
        line@ == progress_text(current as int, total as int, width as int, measures@),
{
    let progress: u64 = current * width / total;
    let percentage: u64 = current * 100 / total;
    let mut out: Vec<char> = Vec::new();
    push_decimal(&mut out, current);
    push_text(&mut out, " / ");
    push_decimal(&mut out, total);
    push_text(&mut out, " (");
    push_decimal(&mut out, percentage);
    push_text(&mut out, "%) [");
    let ghost head = out@;
    let mut i: u64 = 0;
    while i < width + 1
        invariant
            i <= width + 1,
            width < u64::MAX,
            out@ == head + Seq::new(i as nat, |k: int| bar_char(k, progress as int)),
        decreases width + 1 - i,
    {
        let ghost before = Seq::new(i as nat, |k: int| bar_char(k, progress as int));
        if i == progress {
            out.push('>');
        } else if i < progress {
            out.push('=');
        } else {
            out.push('-');
        }
        assert(Seq::new((i + 1) as nat, |k: int| bar_char(k, progress as int)) == before.push(
            bar_char(i as int, progress as int),
        ));
        i += 1;
    }
    push_text(&mut out, "] - ");
    push_text(&mut out, measures);
    text_of(&out)
}

} // verus!
