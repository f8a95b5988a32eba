//! VHS `.tape` scripts: the syntax tree, the parser and the writer.

pub mod ast;
pub mod messages;
pub mod parser;
pub mod readback;
pub mod sources;
pub mod writer;

pub use ast::{
    Easing, Event, FloatText, KeyAction, KeySpec, ModSet, MouseAction, MouseButton, NamedKey,
    Script, ScrollDirection, Settings, WaitScope,
};
pub use parser::{parse, parse_duration};
pub use writer::{write_reference_header, write_tape_script};
