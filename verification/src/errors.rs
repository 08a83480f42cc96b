use vstd::prelude::*;

verus! {

/// Why a character-set definition was rejected at construction time.
#[derive(Debug, Clone, Copy, PartialEq, Eq, Structural)]
pub enum CharsetError {
    /// Two entries of the definition give a column to the same character.
    DuplicateChar(char),
    /// The two named characters map to the same column pattern, so
    /// decoding could not invert encoding.
    DuplicateColumn(char, char),
}

/// Why a punch or read operation failed. Neither failure is ever
/// skipped over silently: the operation stops at the offending input.
#[derive(Debug, Clone, Copy, PartialEq, Eq, Structural)]
pub enum PunchError {
    /// The character has no entry in the character set.
    UnsupportedCharacter(char),
    /// The column matches no entry of the character set.
    UnknownColumn,
}

} // verus!
