//! The content filters of the text mode: each turns the pipeline elements it
//! receives into those the next filter reads.

pub mod tab_expansion;
pub mod unicode_to_text;
pub mod show_trailing_spaces;
pub mod text_mode_codec;
pub mod char_map;
pub mod screen_filler;
pub mod data_fetch;
pub mod word_wrap;
pub mod text_mode;
pub mod highlight_selection;
pub mod movement;
pub mod editing;
pub mod pointer;
pub mod ruler;
pub mod highlight_selection_overlay;
pub mod draw_mark;
pub mod scrolling;
pub mod next_line;
