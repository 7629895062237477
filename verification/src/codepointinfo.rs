//! The information attached to each displayed cell: the decoded code point,
//! the character actually drawn, where it comes from in the document and how
//! it is styled.

use vstd::prelude::*;

verus! {

/// An RGB triple.
pub type Color = (u8, u8, u8);

/// How a cell is drawn.
#[derive(Debug, Clone, Copy, PartialEq, Eq)]
pub struct TextStyle {
    pub is_selected: bool,
    pub is_inverse: bool,
    pub is_bold: bool,
    pub color: (u8, u8, u8),
    pub bg_color: (u8, u8, u8),
}

impl TextStyle {
    pub open spec fn spec_default_color() -> (u8, u8, u8) {
        (192, 192, 192)
    }

    pub open spec fn spec_default_bg_color() -> (u8, u8, u8) {
        (45, 49, 54)
    }

    pub open spec fn spec_default_selected_bg_color() -> (u8, u8, u8) {
        (0, 0, 255)
    }

    pub open spec fn spec_default_mark_line_bg_color() -> (u8, u8, u8) {
        (32, 36, 42)
    }

    pub open spec fn spec_title_color() -> (u8, u8, u8) {
        (255, 255, 255)
    }

    pub open spec fn spec_title_bg_color() -> (u8, u8, u8) {
        (0, 119, 184)
    }

    /// The style of a plain, unselected character.
    pub open spec fn spec_new() -> TextStyle {
        TextStyle {
            is_selected: false,
            is_inverse: false,
            is_bold: false,
            color: Self::spec_default_color(),
            bg_color: Self::spec_default_bg_color(),
        }
    }

    pub fn new() -> (s: TextStyle)
        ensures
            s == Self::spec_new(),
    {
        TextStyle {
            is_selected: false,
            is_inverse: false,
            is_bold: false,
            color: Self::default_color(),
            bg_color: Self::default_bg_color(),
        }
    }

    pub fn default_color() -> (c: (u8, u8, u8))
        ensures
            c == Self::spec_default_color(),
    {
        (192, 192, 192)
    }

    pub fn default_bg_color() -> (c: (u8, u8, u8))
        ensures
            c == Self::spec_default_bg_color(),
    {
        (45, 49, 54)
    }

    pub fn default_selected_bg_color() -> (c: (u8, u8, u8))
        ensures
            c == Self::spec_default_selected_bg_color(),
    {
        (0, 0, 255)
    }

    pub fn default_mark_line_bg_color() -> (c: (u8, u8, u8))
        ensures
            c == Self::spec_default_mark_line_bg_color(),
    {
        (32, 36, 42)
    }

    pub fn title_color() -> (c: (u8, u8, u8))
        ensures
            c == Self::spec_title_color(),
    {
        (255, 255, 255)
    }

    pub fn title_bg_color() -> (c: (u8, u8, u8))
        ensures
            c == Self::spec_title_bg_color(),
    {
        (0, 119, 184)
    }
}

/// One decoded (or generated) code point, ready to be put on a screen.
///
/// `metadata` cells are produced by the layout itself (wrap markers, end of
/// file marker...) and do not stand for document bytes: they have no size.
#[derive(Debug, Clone, Copy, PartialEq, Eq)]
pub struct CodepointInfo {
    pub used: bool,
    pub metadata: bool,
    pub cp: char,
    pub displayed_cp: char,
    pub offset: Option<u64>,
    pub size: usize,
    pub skip_render: bool,
    pub style: TextStyle,
}

impl CodepointInfo {
    /// An empty cell: a blank that stands for nothing in the document.
    pub open spec fn spec_new() -> CodepointInfo {
        CodepointInfo {
            used: false,
            metadata: false,
            cp: ' ',
            displayed_cp: ' ',
            offset: None,
            size: 0,
            skip_render: false,
            style: TextStyle::spec_new(),
        }
    }

    pub fn new() -> (c: CodepointInfo)
        ensures
            c == Self::spec_new(),
    {
        CodepointInfo {
            used: false,
            metadata: false,
            cp: ' ',
            displayed_cp: ' ',
            offset: None,
            size: 0,
            skip_render: false,
            style: TextStyle::new(),
        }
    }
}

} // verus!
