use mosaic::config::{
    CommandModeConfig, CommandModeShortcuts, Config, ConfigHandler, EditorConfig, EditorShortcuts,
    InsertModeConfig, InsertModeShortcuts, MosaicConfig, NormalModeConfig, NormalModeShortcuts,
};
use mosaic::mode::Mode;
use mosaic::path::file_extension;
use mosaic::syntax::{
    syntax_for_extension, SyntaxConfig, SyntaxEntryConfig, SyntaxHandler, SyntaxIndexConfig,
};
use mosaic::editor::Editor;

#[test]
fn default_settings() {
    let config = Config::default();
    assert!(config.mosaic.auto_save);
    assert_eq!(config.mosaic.save_interval, 1000);
    assert!(config.editor.show_gutter);
    assert_eq!(config.editor.tab_size, 4);
    assert_eq!(config.editor.shortcuts.enter_normal_mode, "esc");
    assert!(config.editor.normal_mode.highlight_current_line);
    assert_eq!(config.editor.normal_mode.shortcuts.enter_insert_mode, "i");
    assert_eq!(config.editor.normal_mode.shortcuts.enter_command_mode, "q");
    assert_eq!(config.editor.normal_mode.shortcuts.move_left, "left | j");
    assert_eq!(config.editor.normal_mode.shortcuts.move_right, "right | ø");
    assert_eq!(config.editor.normal_mode.shortcuts.move_up, "up | k");
    assert_eq!(config.editor.normal_mode.shortcuts.move_down, "down | l");
    assert_eq!(config.editor.insert_mode.shortcuts.move_left, "left");
    assert_eq!(config.editor.insert_mode.shortcuts.skip_word_left, "ctrl+left | ctrl+j");
    assert_eq!(config.editor.insert_mode.shortcuts.skip_word_right, "ctrl+right | ctrl+ø");
    assert_eq!(config.editor.insert_mode.shortcuts.skip_paragraph_up, "ctrl+up | ctrl+k");
    assert_eq!(config.editor.insert_mode.shortcuts.skip_paragraph_down, "ctrl+down | ctrl+l");
    assert_eq!(config.editor.insert_mode.shortcuts.scroll_up, "ctrl+k | scroll_up");
    assert_eq!(config.editor.insert_mode.shortcuts.scroll_down, "ctrl+l | scroll_down");
    assert_eq!(config.editor.command_mode.shortcuts.move_right, "right");
    assert_eq!(config.editor.command_mode.shortcuts.skip_word_left, "ctrl+left | ctrl+j");
}

#[test]
fn default_settings_of_the_parts() {
    assert_eq!(MosaicConfig::default().save_interval, 1000);
    assert_eq!(EditorConfig::default().tab_size, 4);
    assert_eq!(EditorShortcuts::default().enter_normal_mode, "esc");
    assert!(NormalModeConfig::default().highlight_current_line);
    assert_eq!(NormalModeShortcuts::default().move_down, "down | l");
    assert_eq!(InsertModeConfig::default().shortcuts.move_up, "up");
    assert_eq!(InsertModeShortcuts::default().move_right, "right");
    assert_eq!(CommandModeConfig::default().shortcuts.move_left, "left");
    assert_eq!(CommandModeShortcuts::default().skip_word_right, "ctrl+right | ctrl+ø");
}

#[test]
fn reload_takes_what_could_be_read() {
    let mut handler = ConfigHandler::new();
    assert_eq!(handler.config.editor.tab_size, 4);
    let mut loaded = Config::default();
    loaded.editor.tab_size = 8;
    loaded.mosaic.auto_save = false;
    assert!(!handler.reload(Some(loaded)));
    assert_eq!(handler.config.editor.tab_size, 8);
    assert!(!handler.config.mosaic.auto_save);
    assert!(handler.reload(None));
    assert_eq!(handler.config.editor.tab_size, 8);
}

#[test]
fn mode_names() {
    assert_eq!(Mode::from_string("normal".to_string()), Some(Mode::Normal));
    assert_eq!(Mode::from_string("INSERT".to_string()), Some(Mode::Insert));
    assert_eq!(Mode::from_string("Command".to_string()), Some(Mode::Command));
    assert_eq!(Mode::from_string("visual".to_string()), None);
    assert_eq!(Mode::from_string("".to_string()), None);
    assert_eq!(Mode::from_lowercase("insert"), Some(Mode::Insert));
    assert_eq!(Mode::from_lowercase("Insert"), None);
    assert_eq!(Mode::Normal.to_string(), "Normal");
    assert_eq!(Mode::Insert.to_string(), "Insert");
    assert_eq!(Mode::Command.to_string(), "Command");
    for mode in [Mode::Normal, Mode::Insert, Mode::Command] {
        assert_eq!(Mode::from_string(mode.to_string()), Some(mode));
    }
}

#[test]
fn syntax_by_extension_is_the_first_that_fits() {
    let mut handler = SyntaxHandler::new();
    assert!(handler.configs.is_empty());
    assert!(handler.syntax_entry_config.is_empty());
    assert!(handler.get_syntax_by_extension("rs").is_none());
    let mut first = SyntaxConfig::new("rs");
    first.keywords.push("fn".to_string());
    let mut second = SyntaxConfig::new("rs");
    second.keywords.push("let".to_string());
    handler.configs.push(SyntaxConfig::new("py"));
    handler.configs.push(first.clone());
    handler.configs.push(second);
    assert_eq!(handler.get_syntax_by_extension("rs"), Some(&first));
    assert_eq!(handler.get_syntax_by_extension("py").map(|c| c.keywords.len()), Some(0));
    assert!(handler.get_syntax_by_extension("r").is_none());
    assert!(handler.get_syntax_by_extension("").is_none());
}

#[test]
fn syntax_entries() {
    let entry = SyntaxEntryConfig::new("rs", "rust");
    assert_eq!(entry.extension, "rs");
    assert_eq!(entry.filename, "rust");
}

#[test]
fn language_of_an_extension() {
    let mut index = SyntaxIndexConfig::new();
    assert_eq!(syntax_for_extension("rs", &index), None);
    index.languages.push(("c".to_string(), vec!["c".to_string(), "h".to_string()]));
    index.languages.push(("rust".to_string(), vec!["rs".to_string()]));
    index.languages.push(("cpp".to_string(), vec!["cpp".to_string(), "h".to_string()]));
    assert_eq!(syntax_for_extension("rs", &index), Some("rust".to_string()));
    assert_eq!(syntax_for_extension("h", &index), Some("c".to_string()));
    assert_eq!(syntax_for_extension("cpp", &index), Some("cpp".to_string()));
    assert_eq!(syntax_for_extension("py", &index), None);
}

#[test]
fn extension_of_a_path() {
    assert_eq!(file_extension("main.rs"), Some("rs".to_string()));
    assert_eq!(file_extension("src/lib/main.test.rs"), Some("rs".to_string()));
    assert_eq!(file_extension("archive.tar.gz"), Some("gz".to_string()));
    assert_eq!(file_extension("Makefile"), None);
    assert_eq!(file_extension(".bashrc"), None);
    assert_eq!(file_extension(".config.toml"), Some("toml".to_string()));
    assert_eq!(file_extension("a.b/c"), None);
    assert_eq!(file_extension("dir/name."), Some("".to_string()));
    assert_eq!(file_extension("dir.d/"), Some("d".to_string()));
    assert_eq!(file_extension("dir/file.txt/."), Some("txt".to_string()));
    assert_eq!(file_extension("dir/file.txt//"), Some("txt".to_string()));
    assert_eq!(file_extension("dir/.."), None);
    assert_eq!(file_extension(".."), None);
    assert_eq!(file_extension("."), None);
    assert_eq!(file_extension("./"), None);
    assert_eq!(file_extension("/"), None);
    assert_eq!(file_extension(""), None);
    assert_eq!(file_extension("..."), Some("".to_string()));
    assert_eq!(file_extension("ü.é"), Some("é".to_string()));
}

#[test]
fn extension_agrees_with_the_standard_library() {
    let paths = [
        "main.rs", "a/b.c/d", "a/b.c/", "a/b.c/.", "x/..", "..", ".", "", "/", ".hidden",
        ".hidden.txt", "name.", "a.b.c", "dir/./file.md", "//x.y//", "...", "a/..b", "a/b..",
    ];
    for p in paths {
        let expected = std::path::Path::new(p).extension().map(|e| e.to_string_lossy().to_string());
        assert_eq!(file_extension(p), expected, "path {:?}", p);
    }
}

#[test]
fn extension_of_the_document() {
    let editor = Editor::new(None, None);
    assert_eq!(editor.get_file_extension(), None);
    assert_eq!(editor.file_path(), None);
    let editor = Editor::new(Some("x"), Some("notes/plan.md".to_string()));
    assert_eq!(editor.get_file_extension(), Some("md".to_string()));
    assert_eq!(editor.file_path(), Some(&"notes/plan.md".to_string()));
    let mut editor = Editor::new(Some("x"), Some("README".to_string()));
    assert_eq!(editor.get_file_extension(), None);
    editor.open_file("src/main.rs", "fn main() {}");
    assert_eq!(editor.get_file_extension(), Some("rs".to_string()));
}

#[test]
fn gutter_and_insert_flags() {
    let mut editor = Editor::new(None, None);
    assert!(editor.show_gutter());
    assert!(editor.insert_inactive());
    editor.toggle_gutter();
    assert!(!editor.show_gutter());
    editor.toggle_gutter();
    assert!(editor.show_gutter());
    editor.set_insert_inactive(false);
    assert!(!editor.insert_inactive());
    assert_eq!(editor.text(), "");
}
