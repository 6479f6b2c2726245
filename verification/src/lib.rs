//! A small template language for replaying keystrokes: literal text, delays,
//! named arguments with defaults, and chorded key combinations.
//!
//! A template is text. `assemble` joins its physical lines into logical
//! lines, `parse` turns each logical line into parts and collects the
//! defaults that the template declares, `resolve` finds a value for every
//! argument, `chord` turns a key combo into presses and releases, and
//! `playback` lays out the steps that send a resolved template to the
//! keyboard. `grammar` says what parsing means; `normalize`, `order`,
//! `render` and `vocabulary` hold what is proved of it. `target` says where a
//! template comes from.
//!
//! The library reads no file, asks no question and presses no key: the host
//! does, with what the library hands it.

pub mod assemble;
pub mod chord;
pub mod diagnostic;
pub mod error;
pub mod grammar;
pub mod normalize;
pub mod order;
pub mod parse;
pub mod part;
pub mod playback;
pub mod registry;
pub mod render;
pub mod resolve;
pub mod target;
pub mod text;
pub mod vocabulary;
