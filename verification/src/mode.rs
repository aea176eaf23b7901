//! The modes of a modal editor.

use crate::chars::{lowercase, str_eq};
use vstd::prelude::*;

verus! {

/// The mode that keys are read in.
#[derive(Clone, Copy, Debug, PartialEq, Eq, PartialOrd, Ord, Structural)]
pub enum Mode {
    Normal,
    Insert,
    Command,
}

impl Mode {
    /// The mode that the lower-case name `name` names.
    pub open spec fn named(name: Seq<char>) -> Option<Mode> {
        if name == "normal"@ {
            Some(Mode::Normal)
        } else if name == "insert"@ {
            Some(Mode::Insert)
        } else if name == "command"@ {
            Some(Mode::Command)
        } else {
            None
        }
    }

    /// The name of the mode, with a capital.
    pub open spec fn name(self) -> Seq<char> {
        match self {
            Mode::Normal => "Normal"@,
            Mode::Insert => "Insert"@,
            Mode::Command => "Command"@,
        }
    }

    /// The mode that `name` names, where `name` is in lower case.
    pub fn from_lowercase(name: &str) -> (mode: Option<Mode>)
        ensures
            mode == Mode::named(name@),
    {
        if str_eq(name, "normal") {
            Some(Mode::Normal)
        } else if str_eq(name, "insert") {
            Some(Mode::Insert)
        } else if str_eq(name, "command") {
            Some(Mode::Command)
        } else {
            None
        }
    }

    /// The mode that `s` names, whatever the case of its letters.
    pub fn from_string(s: String) -> (mode: Option<Mode>)
        ensures
            mode == Mode::named(lowercase(s@)),
    {
        let lower = s.as_str().to_lowercase();
        Mode::from_lowercase(lower.as_str())
    }

    /// The name of the mode, with a capital.
    pub fn to_string(&self) -> (name: String)
        ensures
            name@ == self.name(),
    {
        match self {
            Mode::Normal => "Normal".to_owned(),
            Mode::Insert => "Insert".to_owned(),
            Mode::Command => "Command".to_owned(),
        }
    }
}

} // verus!
