//! The world as text for a terminal: one glyph per cell, and the line that
//! reports how far the simulation has come.

use crate::grid::Grid;
use crate::torus::{COLUMNS, ROWS};
use crate::world::World;
use vstd::prelude::*;
use vstd::string::StringExecFns;

verus! {

/// `String::push` appends one character to the end of the string.
///
/// Trusted, not proved: this is what the standard library documents of it.
pub assume_specification[ String::push ](text: &mut String, ch: char)
    ensures
        final(text)@ == old(text)@.push(ch),
;

/// The glyph of a cell: `'0'` for a live cell, `'_'` for a dead one.
pub open spec fn glyph(alive: bool) -> char {
    if alive {
        '0'
    } else {
        '_'
    }
}

/// The glyph of a cell: `'0'` for a live cell, `'_'` for a dead one.
pub fn bool_to_char(bl: bool) -> (digit: char)
    ensures
        digit == glyph(bl),
{
    let digit: char;
    if bl {
        digit = '0';
    } else {
        digit = '_';
    }
    digit
}

/// The sequence of characters that clears a terminal's screen: escape,
/// then `[2J`.
pub open spec fn clear_screen() -> Seq<char> {
    seq!['\u{1b}', '[', '2', 'J']
}

/// The cells of one row as text: each cell's glyph followed by a space.
pub open spec fn cells_text(cells: Seq<bool>) -> Seq<char>
    decreases cells.len(),
{
    if cells.len() == 0 {
        Seq::empty()
    } else {
        cells_text(cells.drop_last()) + seq![glyph(cells.last()), ' ']
    }
}

/// The rows of a grid as text: each row's cells followed by a line break.
pub open spec fn rows_text(g: Grid) -> Seq<char>
    decreases g.len(),
{
    if g.len() == 0 {
        Seq::empty()
    } else {
        rows_text(g.drop_last()) + cells_text(g.last()) + seq!['\n']
    }
}

/// One frame: the sequence that clears the screen, the rows of the grid,
/// and an empty line.
pub open spec fn world_text(g: Grid) -> Seq<char> {
    clear_screen() + rows_text(g) + seq!['\n']
}

/// The text that shows `world` on a terminal: the screen is cleared, then
/// every row is written as one line of glyphs with a space after each, and
/// an empty line ends the frame.
pub fn display_world(world: &World) -> (text: String)
    requires
        world.wf(),
    ensures
        text@ == world_text(world@),
{
    let mut text = String::new();
    text.push('\u{1b}');
    text.push('[');
    text.push('2');
    text.push('J');
    assert(text@ =~= clear_screen());
    let mut i: usize = 0;
    while i < ROWS
        invariant
            world.wf(),
            i <= ROWS,
            text@ == clear_screen() + rows_text(world@.take(i as int)),
        decreases ROWS - i,
    {
        let ghost before = text@;
        let ghost cells = world@[i as int];
        let mut j: usize = 0;
        while j < COLUMNS
            invariant
                world.wf(),
                i < ROWS,
                j <= COLUMNS,
                cells == world@[i as int],
                text@ == before + cells_text(cells.take(j as int)),
            decreases COLUMNS - j,
        {
            text.push(bool_to_char(world.get(i, j)));
            text.push(' ');
            proof {
                assert(cells.take(j + 1).drop_last() =~= cells.take(j as int));
                assert(text@ =~= before + cells_text(cells.take(j + 1)));
            }
            j = j + 1;
        }
        text.push('\n');
        proof {
            assert(cells.take(COLUMNS as int) =~= cells);
            assert(world@.take(i + 1).drop_last() =~= world@.take(i as int));
            assert(text@ =~= clear_screen() + rows_text(world@.take(i + 1)));
        }
        i = i + 1;
    }
    text.push('\n');
    proof {
        assert(world@.take(ROWS as int) =~= world@);
        assert(text@ =~= world_text(world@));
    }
    text
}

/// The decimal digit that stands for `value`, which is less than ten.
pub open spec fn digit_char(value: nat) -> char {
    ('0' as nat + value) as char
}

/// `n` written in decimal digits, without leading zeros.
pub open spec fn decimal(n: nat) -> Seq<char>
    decreases n,
{
    if n < 10 {
        seq![digit_char(n)]
    } else {
        decimal(n / 10) + seq![digit_char(n % 10)]
    }
}

/// The line that reports the day, the number of cells that were alive at
/// the start and the number that are alive now, with an empty line before
/// it and one after it.
pub open spec fn status_text(day: nat, alive_at_start: nat, alive_now: nat) -> Seq<char> {
    "\nDay: "@ + decimal(day) + ", Alive at start: "@ + decimal(alive_at_start)
        + ", Alive now: "@ + decimal(alive_now) + "\n\n"@
}

/// Appends `n` in decimal digits to `text`.
pub fn push_decimal(text: &mut String, n: u64)
    ensures
        final(text)@ == old(text)@ + decimal(n as nat),
    decreases n,
{
    if n >= 10 {
        push_decimal(text, n / 10);
    }
    let digit: u8 = (n % 10) as u8;
    text.push((48u8 + digit) as char);
    assert(text@ =~= old(text)@ + decimal(n as nat));
}

/// The status line of a frame: `Day: `, the day, `, Alive at start: `, the
/// number of cells that were alive at the start, `, Alive now: `, the
/// number that are alive now; an empty line before it and one after it.
pub fn status_line(day: u64, alive_at_start: usize, alive_now: usize) -> (text: String)
    ensures
        text@ == status_text(day as nat, alive_at_start as nat, alive_now as nat),
{
    let mut text = String::new();
    text.append("\nDay: ");
    push_decimal(&mut text, day);
    text.append(", Alive at start: ");
    push_decimal(&mut text, alive_at_start as u64);
    text.append(", Alive now: ");
    push_decimal(&mut text, alive_now as u64);
    text.append("\n\n");
    assert(text@ =~= status_text(day as nat, alive_at_start as nat, alive_now as nat));
    text
}

} // verus!
