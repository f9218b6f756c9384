pub mod text;
pub mod paths;
pub mod editor;
pub mod pattern;
pub mod git;
pub mod search;
pub mod fs;
pub mod vscode_widgets;
pub mod workbench;
pub mod assets;
pub mod file_icons;
