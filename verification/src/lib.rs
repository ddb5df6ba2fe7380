//! A line-numbered BASIC interpreter, and a few smaller libraries beside it:
//! colours in CSS notation, a dungeon of linked rooms, matrices, a
//! word-guessing game and rock-paper-scissors. All of them state what they
//! do over sequences of characters, maps and numbers, and Verus proves it.
pub mod text;
pub mod words;
pub mod number;
pub mod basic;
pub mod color;
pub mod dungeon;
pub mod rock_paper_scissors;
pub mod wordle;
pub mod matrix;
pub mod matrix4;
