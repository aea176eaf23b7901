//! The text-editing engine of a modal terminal editor.
//!
//! The engine owns the text of a document in a rope, keeps any number of
//! cursors valid while the text changes under them, moves the primary
//! cursor, keeps it on screen, and cuts the lines on screen into classed
//! spans for highlighting. It does no input and no output: a host reads
//! keys and files, calls the engine, and draws what the engine holds.
//!
//! - `text`: the line structure of a text, as mathematics.
//! - `rope`, `chars`: what is taken on trust about `ropey` and about the
//!   character classes of the standard library.
//! - `cursor`, `cursor_set`: cursors, and sequences of cursors in normal
//!   form.
//! - `edits`: what typing and deleting at several cursors do to a text.
//! - `motion`: where a cursor goes when it is moved.
//! - `viewport`: which lines are on screen.
//! - `editor`: the editing session that ties these together.
//! - `laws`: what holds of the operations of the editor, whatever the text.
//! - `lexer`, `syntax`: the lexical model of a line, and the tokenizer.
//! - `config`, `mode`, `keys`, `dispatch`, `command`, `path`: settings,
//!   modes, key bindings and what they ask for, command lines and file
//!   extensions, as the host needs them.

pub mod chars;
pub mod command;
pub mod config;
pub mod cursor;
pub mod cursor_set;
pub mod dispatch;
pub mod editor;
pub mod edits;
pub mod keys;
pub mod laws;
pub mod lexer;
pub mod mode;
pub mod motion;
pub mod path;
pub mod rope;
pub mod syntax;
pub mod text;
pub mod viewport;
