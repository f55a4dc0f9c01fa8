//! Verified core of the AVL BASIC console: text utilities, the full-screen
//! program editor, debugger views and audio watchdog logic.
pub mod text;
pub mod editor;
pub mod separators;
pub mod renumber;
pub mod editor_ops;
pub mod debug_view;
pub mod debugger;
pub mod navigation;
pub mod session;
pub mod line_input;
pub mod screen_text;
pub mod help;
pub mod watchdog;
pub mod error;
pub mod fonts;
pub mod colors;
pub mod laws;
pub mod editor_keys;
pub mod sound;
pub mod scalar_edit;
pub mod texture;
pub mod widths;
pub mod noise;
pub mod panel;
pub mod inspection;
pub mod debug_pause;
pub mod numbers;
pub mod number_tokens;
pub mod decimal_value;
pub mod immediate;
pub mod file_commands;
pub mod debug_terminal;
pub mod sound_queue;
pub mod envelope;
pub mod canonical_laws;
pub mod line_editor;
pub mod normalize;
pub mod highlight;
pub mod debug_frame;
pub mod reference_lists;
