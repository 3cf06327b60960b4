//! A compiler for Mustache-family templates: text interleaved with tags is
//! turned into an ordered tree of instructions for a later renderer.
//!
//! A template is scanned once, front to back. Text is gathered until a tag
//! is met and then written out as one instruction; a tag that opens a block
//! has the block's body compiled as a level of its own, up to the closing
//! tag of the same name. Delimiters can be changed by a tag; the change
//! holds for the rest of the level and for the blocks inside it.
//!
//! A line that holds blanks and a single tag leaves no line feed behind,
//! and the blanks around a block's opening and closing tag on such a line
//! are dropped.
//!
//! - `text`: blanks, trimming and comparison of texts.
//! - `cursor`: the cursor with one character of lookahead.
//! - `model`: the instruction tree and its mathematical value.
//! - `syntax`: what a compiled template is, as a function of its characters.
//! - `compiler`: the compiler, proved to compute that function.
//! - `visitor`: handing the instructions to a receiver.
//! - `laws`: what holds of every compile.

pub mod text;
pub mod model;
pub mod cursor;
pub mod syntax;
pub mod compiler;
pub mod laws;
pub mod visitor;
