use vstd::prelude::*;

verus! {

/// One resolved instruction of a loaded program.
#[derive(Clone, Copy, Debug, PartialEq, Eq, Structural)]
pub enum Instruction {
    /// Moves the data pointer one cell to the right.
    MoveRight,
    /// Moves the data pointer one cell to the left.
    MoveLeft,
    /// Adds one to the current cell, wrapping at 256.
    Increment,
    /// Subtracts one from the current cell, wrapping at 256.
    Decrement,
    /// Emits the current cell as one byte.
    Output,
    /// Reads one byte into the current cell.
    Input,
    /// Skips past the matching loop end (at the given index) when the current cell is zero.
    LoopStart(usize),
    /// Jumps back to the matching loop start (at the given index).
    LoopEnd(usize),
    /// Stops the machine.
    Halt,
}

/// Whether `c` is one of the nine command characters; every other character is a comment.
pub open spec fn is_command(c: char) -> bool {
    c == '<' || c == '>' || c == '[' || c == ']' || c == '.' || c == ',' || c == '-' || c == '+'
        || c == '!'
}

/// Whether `c` is one of the nine command characters.
pub fn is_command_char(c: char) -> (r: bool)
    ensures
        r == is_command(c),
{
    c == '<' || c == '>' || c == '[' || c == ']' || c == '.' || c == ',' || c == '-' || c == '+'
        || c == '!'
}

} // verus!
