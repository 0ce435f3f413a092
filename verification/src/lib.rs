//! RusticSort: sorting the files of a folder into sub-folders by their extension.
//!
//! The library holds the decisions of the organizer (which rule applies to a
//! file, where it goes, how a move is undone) and of the wizard-style user
//! interface; the program around it performs the file-system and window work.

pub mod organizer;
pub mod paths;
pub mod rules;
pub mod strings;
pub mod text;
pub mod ui;
