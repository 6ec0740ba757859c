//! The progress indicator: one line of text for a percentage.

use vstd::prelude::*;
use crate::text::string_of;

verus! {

/// The number of cells in the bar.
pub const BAR_WIDTH: usize = 50;

/// The decimal digit for `d`, a number below ten.
pub open spec fn digit(d: int) -> char {
    seq!['0', '1', '2', '3', '4', '5', '6', '7', '8', '9'][d]
}

/// The decimal digit for `d`.
fn digit_char(d: usize) -> (c: char)
    requires
        d <= 9,
    ensures
        c == digit(d as int),
{
    if d == 0 {
        '0'
    } else if d == 1 {
        '1'
    } else if d == 2 {
        '2'
    } else if d == 3 {
        '3'
    } else if d == 4 {
        '4'
    } else if d == 5 {
        '5'
    } else if d == 6 {
        '6'
    } else if d == 7 {
        '7'
    } else if d == 8 {
        '8'
    } else {
        '9'
    }
}

/// A number below 1000 in decimal, set to the right in three columns.
pub open spec fn in_three_columns(n: nat) -> Seq<char> {
    seq![
        if n >= 100 { digit(n as int / 100) } else { ' ' },
        if n >= 10 { digit(n as int / 10 % 10) } else { ' ' },
        digit(n as int % 10),
    ]
}

/// The number of filled cells of the bar at `percent` per cent: that share of
/// the bar's width, rounded down.
pub open spec fn filled_cells(percent: nat) -> nat {
    percent * BAR_WIDTH as nat / 100
}

/// The line that shows `percent` per cent: a carriage return, the percentage
/// in three columns, a per cent sign, and between its two ends a bar of
/// `BAR_WIDTH` cells of which the first `filled_cells(percent)` are filled.
pub open spec fn progress_line(percent: nat) -> Seq<char> {
    seq!['\r'] + in_three_columns(percent) + seq!['%', ' ', '\u{2595}'] + Seq::new(
        filled_cells(percent),
        |i: int| '\u{2588}',
    ) + Seq::new((BAR_WIDTH - filled_cells(percent)) as nat, |i: int| ' ') + seq![' ', '|']
}

/// Appends `count` copies of `c` to `line`.
fn push_copies(line: &mut Vec<char>, c: char, count: usize)
    ensures
        final(line)@ == old(line)@ + Seq::new(count as nat, |i: int| c),
{
    let mut i: usize = 0;
    while i < count
        invariant
            i <= count,
            line@ == old(line)@ + Seq::new(i as nat, |j: int| c),
        decreases count - i,
    {
        line.push(c);
        i += 1;
        assert(line@ =~= old(line)@ + Seq::new(i as nat, |j: int| c));
    }
}

/// The line of text that shows `percent` per cent of progress.
pub fn render_progress(percent: usize) -> (line: String)
    requires
        percent <= 100,
    ensures
        line@ == progress_line(percent as nat),
{
    let filled: usize = percent * BAR_WIDTH / 100;
    let empty: usize = BAR_WIDTH - filled;
    let mut line: Vec<char> = Vec::new();
    line.push('\r');
    line.push(if percent >= 100 { digit_char(percent / 100) } else { ' ' });
    line.push(if percent >= 10 { digit_char(percent / 10 % 10) } else { ' ' });
    line.push(digit_char(percent % 10));
    line.push('%');
    line.push(' ');
    line.push('\u{2595}');
    assert(line@ =~= seq!['\r'] + in_three_columns(percent as nat) + seq!['%', ' ', '\u{2595}']);
    push_copies(&mut line, '\u{2588}', filled);
    push_copies(&mut line, ' ', empty);
    line.push(' ');
    line.push('|');
    assert(line@ =~= progress_line(percent as nat));
    string_of(&line)
}

} // verus!
