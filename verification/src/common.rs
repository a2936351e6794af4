use vstd::prelude::*;

verus! {

/// Tokens straight from the input stream.
#[derive(Clone, Copy, Debug, PartialEq, Eq, Structural)]
pub enum Token {
    MoveRight,
    MoveLeft,
    Increment,
    Decrement,
    RightLoop,
    LeftLoop,
    Output,
    Input,
    EOF,
}

/// Intermediate representation: a loop-nested tree of operations.
#[derive(Debug, PartialEq, Eq)]
pub enum Node {
    Loop(Vec<Node>),
    MoveRight,
    MoveLeft,
    Increment,
    Decrement,
    Output,
    Input,
    Halt,
}

/// Instructions to be executed by the VM, both primitive and fused forms.
#[derive(Debug, Clone, Copy, Hash, PartialEq, Eq, Structural)]
pub enum Instruction {
    /// Add the payload to the current cell, modulo 256.
    Add(u8),
    /// If the current cell is zero, advance the program counter by the payload.
    Jez(u16),
    /// If the current cell is nonzero, retreat the program counter by the payload.
    Jnz(u16),
    /// Move the pointer left by the payload, wrapping modulo the tape size.
    Left(u16),
    /// Move the pointer right by the payload, wrapping modulo the tape size.
    Right(u16),
    /// While the current cell is nonzero, move the pointer left by the stride.
    SearchLeft(u16),
    /// While the current cell is nonzero, move the pointer right by the stride.
    SearchRight(u16),
    /// Add the current cell into the cell that far to the right, then zero the current cell.
    AddMoveRight(u16),
    /// Add the current cell into the cell that far to the left, then zero the current cell.
    AddMoveLeft(u16),
    /// Zero that many consecutive cells rightward, advancing the pointer through them.
    ZeroRight(u16),
    /// Zero that many consecutive cells leftward, advancing the pointer through them.
    ZeroLeft(u16),
    /// Fused diffusion idiom: repeatedly transfer the cell at offset x into the
    /// cell at offset x + n and step the pointer left by n, while the current
    /// cell is nonzero.
    Mandel(u16, u16),
    /// Set the current cell to zero.
    Zero,
    /// Transfer one byte from the current cell to the output boundary.
    Write,
    /// Transfer one byte from the input boundary into the current cell.
    Read,
    /// Terminate execution.
    Halt,
}

} // verus!
