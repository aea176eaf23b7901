//! The settings of the editor and their defaults. The host reads them from
//! its configuration file and hands them over; a key binding is a string
//! of chords, the chords of one binding set apart by `|`.

use vstd::prelude::*;

verus! {

/// All settings.
#[derive(Clone, Debug)]
pub struct Config {
    pub mosaic: MosaicConfig,
    pub editor: EditorConfig,
}

/// The settings of the application around the editor.
#[derive(Clone, Debug)]
pub struct MosaicConfig {
    pub auto_save: bool,
    /// In milliseconds; a save is due only where something has changed.
    pub save_interval: usize,
}

/// The settings of the editor.
#[derive(Clone, Debug)]
pub struct EditorConfig {
    pub show_gutter: bool,
    pub tab_size: usize,
    pub shortcuts: EditorShortcuts,
    pub normal_mode: NormalModeConfig,
    pub insert_mode: InsertModeConfig,
    pub command_mode: CommandModeConfig,
}

/// The key bindings that hold in every mode.
#[derive(Clone, Debug)]
pub struct EditorShortcuts {
    pub enter_normal_mode: String,
}

/// The settings of normal mode.
#[derive(Clone, Debug)]
pub struct NormalModeConfig {
    pub highlight_current_line: bool,
    pub shortcuts: NormalModeShortcuts,
}

/// The key bindings of normal mode.
#[derive(Clone, Debug)]
pub struct NormalModeShortcuts {
    pub enter_insert_mode: String,
    pub enter_command_mode: String,
    pub move_left: String,
    pub move_right: String,
    pub move_up: String,
    pub move_down: String,
}

/// The settings of insert mode.
#[derive(Clone, Debug)]
pub struct InsertModeConfig {
    pub shortcuts: InsertModeShortcuts,
}

/// The key bindings of insert mode.
#[derive(Clone, Debug)]
pub struct InsertModeShortcuts {
    pub move_left: String,
    pub move_right: String,
    pub move_up: String,
    pub move_down: String,
    pub skip_word_left: String,
    pub skip_word_right: String,
    pub skip_paragraph_up: String,
    pub skip_paragraph_down: String,
    pub scroll_up: String,
    pub scroll_down: String,
}

/// The settings of command mode.
#[derive(Clone, Debug)]
pub struct CommandModeConfig {
    pub shortcuts: CommandModeShortcuts,
}

/// The key bindings of command mode.
#[derive(Clone, Debug)]
pub struct CommandModeShortcuts {
    pub move_left: String,
    pub move_right: String,
    pub skip_word_left: String,
    pub skip_word_right: String,
}

impl MosaicConfig {
    /// Whether these are the settings that the application starts with.
    pub open spec fn is_default(self) -> bool {
        &&& self.auto_save
        &&& self.save_interval == 1000
    }
}

impl Default for MosaicConfig {
    fn default() -> (config: Self)
        ensures
            config.is_default(),
    {
        MosaicConfig { auto_save: true, save_interval: 1000 }
    }
}

impl EditorShortcuts {
    /// Whether these are the key bindings that the editor starts with.
    pub open spec fn is_default(self) -> bool {
        self.enter_normal_mode@ == "esc"@
    }
}

impl Default for EditorShortcuts {
    fn default() -> (shortcuts: Self)
        ensures
            shortcuts.is_default(),
    {
        EditorShortcuts { enter_normal_mode: "esc".to_owned() }
    }
}

impl NormalModeShortcuts {
    /// Whether these are the key bindings that normal mode starts with.
    pub open spec fn is_default(self) -> bool {
        &&& self.enter_insert_mode@ == "i"@
        &&& self.enter_command_mode@ == "q"@
        &&& self.move_left@ == "left | j"@
        &&& self.move_right@ == "right | ø"@
        &&& self.move_up@ == "up | k"@
        &&& self.move_down@ == "down | l"@
    }
}

impl Default for NormalModeShortcuts {
    fn default() -> (shortcuts: Self)
        ensures
            shortcuts.is_default(),
    {
        NormalModeShortcuts {
            enter_insert_mode: "i".to_owned(),
            enter_command_mode: "q".to_owned(),
            move_left: "left | j".to_owned(),
            move_right: "right | ø".to_owned(),
            move_up: "up | k".to_owned(),
            move_down: "down | l".to_owned(),
        }
    }
}

impl NormalModeConfig {
    /// Whether these are the settings that normal mode starts with.
    pub open spec fn is_default(self) -> bool {
        &&& self.highlight_current_line
        &&& self.shortcuts.is_default()
    }
}

impl Default for NormalModeConfig {
    fn default() -> (config: Self)
        ensures
            config.is_default(),
    {
        NormalModeConfig { highlight_current_line: true, shortcuts: NormalModeShortcuts::default() }
    }
}

impl InsertModeShortcuts {
    /// Whether these are the key bindings that insert mode starts with.
    pub open spec fn is_default(self) -> bool {
        &&& self.move_left@ == "left"@
        &&& self.move_right@ == "right"@
        &&& self.move_up@ == "up"@
        &&& self.move_down@ == "down"@
        &&& self.skip_word_left@ == "ctrl+left | ctrl+j"@
        &&& self.skip_word_right@ == "ctrl+right | ctrl+ø"@
        &&& self.skip_paragraph_up@ == "ctrl+up | ctrl+k"@
        &&& self.skip_paragraph_down@ == "ctrl+down | ctrl+l"@
        &&& self.scroll_up@ == "ctrl+k | scroll_up"@
        &&& self.scroll_down@ == "ctrl+l | scroll_down"@
    }
}

impl Default for InsertModeShortcuts {
    fn default() -> (shortcuts: Self)
        ensures
            shortcuts.is_default(),
    {
        InsertModeShortcuts {
            move_left: "left".to_owned(),
            move_right: "right".to_owned(),
            move_up: "up".to_owned(),
            move_down: "down".to_owned(),
            skip_word_left: "ctrl+left | ctrl+j".to_owned(),
            skip_word_right: "ctrl+right | ctrl+ø".to_owned(),
            skip_paragraph_up: "ctrl+up | ctrl+k".to_owned(),
            skip_paragraph_down: "ctrl+down | ctrl+l".to_owned(),
            scroll_up: "ctrl+k | scroll_up".to_owned(),
            scroll_down: "ctrl+l | scroll_down".to_owned(),
        }
    }
}

impl InsertModeConfig {
    /// Whether these are the settings that insert mode starts with.
    pub open spec fn is_default(self) -> bool {
        self.shortcuts.is_default()
    }
}

impl Default for InsertModeConfig {
    fn default() -> (config: Self)
        ensures
            config.is_default(),
    {
        InsertModeConfig { shortcuts: InsertModeShortcuts::default() }
    }
}

impl CommandModeShortcuts {
    /// Whether these are the key bindings that command mode starts with.
    pub open spec fn is_default(self) -> bool {
        &&& self.move_left@ == "left"@
        &&& self.move_right@ == "right"@
        &&& self.skip_word_left@ == "ctrl+left | ctrl+j"@
        &&& self.skip_word_right@ == "ctrl+right | ctrl+ø"@
    }

    /// The key bindings that command mode starts with.
    pub fn default() -> (shortcuts: Self)
        ensures
            shortcuts.is_default(),
    {
        CommandModeShortcuts {
            move_left: "left".to_owned(),
            move_right: "right".to_owned(),
            skip_word_left: "ctrl+left | ctrl+j".to_owned(),
            skip_word_right: "ctrl+right | ctrl+ø".to_owned(),
        }
    }
}

impl CommandModeConfig {
    /// Whether these are the settings that command mode starts with.
    pub open spec fn is_default(self) -> bool {
        self.shortcuts.is_default()
    }
}

impl Default for CommandModeConfig {
    fn default() -> (config: Self)
        ensures
            config.is_default(),
    {
        CommandModeConfig { shortcuts: CommandModeShortcuts::default() }
    }
}

impl EditorConfig {
    /// Whether these are the settings that the editor starts with.
    pub open spec fn is_default(self) -> bool {
        &&& self.show_gutter
        &&& self.tab_size == 4
        &&& self.shortcuts.is_default()
        &&& self.normal_mode.is_default()
        &&& self.insert_mode.is_default()
        &&& self.command_mode.is_default()
    }
}

impl Default for EditorConfig {
    fn default() -> (config: Self)
        ensures
            config.is_default(),
    {
        EditorConfig {
            show_gutter: true,
            tab_size: 4,
            shortcuts: EditorShortcuts::default(),
            normal_mode: NormalModeConfig::default(),
            insert_mode: InsertModeConfig::default(),
            command_mode: CommandModeConfig::default(),
        }
    }
}

impl Config {
    /// Whether these are the settings that everything starts with.
    pub open spec fn is_default(self) -> bool {
        &&& self.mosaic.is_default()
        &&& self.editor.is_default()
    }
}

impl Default for Config {
    fn default() -> (config: Self)
        ensures
            config.is_default(),
    {
        Config { mosaic: MosaicConfig::default(), editor: EditorConfig::default() }
    }
}

/// The settings in force.
#[derive(Clone, Debug)]
pub struct ConfigHandler {
    pub config: Config,
}

impl ConfigHandler {
    /// A handler with the default settings in force.
    pub fn new() -> (handler: Self)
        ensures
            handler.config.is_default(),
    {
        ConfigHandler { config: Config::default() }
    }

    /// Takes what the host has made of the configuration file: settings
    /// that it could read come into force. Where it could read none, the
    /// settings in force stay, and the result tells the host to write them
    /// to the file.
    pub fn reload(&mut self, loaded: Option<Config>) -> (write_back: bool)
        ensures
            write_back == (loaded is None),
            final(self).config == match loaded {
                Some(config) => config,
                None => old(self).config,
            },
    {
        match loaded {
            Some(config) => {
                self.config = config;
                false
            },
            None => true,
        }
    }
}

} // verus!
