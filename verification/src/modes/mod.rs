//! The modes that work beside the text mode: going to a line, finding a
//! string, numbering the lines, opening a document, the bars around the
//! views and the help pop-up.

pub mod goto_line_mode;
pub mod find_mode;
pub mod line_number;
pub mod open_doc;
pub mod bars;
pub mod help;
pub mod vsplit;
