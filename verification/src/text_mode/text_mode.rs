//! The text mode: its per-view context (marks, selections, copy buffer,
//! character and color maps) and the actions it queues.

use std::collections::HashMap;

use vstd::prelude::*;
use vstd::string::StringExecFns;

use crate::codec::TextCodec;
use crate::mark::Mark;

verus! {

broadcast use vstd::std_specs::hash::group_hash_axioms;

/// What the text mode does once the input was handled.
#[derive(Debug, Clone, Copy)]
pub enum PostInputAction {
    ScrollUp { n: usize },
    ScrollDown { n: usize },
    CenterAroundMainMark,
    CenterAroundMainMarkIfOffScreen,
    CenterAround { offset: u64 },
    MoveMarksToNextLine,
    MoveMarksToPreviousLine,
    MoveMarkToNextLine { idx: usize },
    MoveMarkToPreviousLine { idx: usize },
    ResetMarks,
    CheckMarks,
    DeduplicateMarks { caller: &'static str },
    DeduplicateAndSaveMarks { caller: &'static str },
    SaveMarks { caller: &'static str },
    CancelSelection,
    UpdateReadCache,
}

/// The kind of the last action of the text mode.
#[derive(Debug, Clone, Copy, PartialEq, Eq, Structural)]
pub enum TextModeAction {
    Ignore,
    CreateMarks,
    MarksMove,
    ScreenMove,
    DocumentModification,
    Undo,
    Redo,
}

/// An entry of the copy buffer: the index of a document change that holds
/// the data, or a standalone copy.
pub enum CopyData {
    BufferLogIndex(usize),
    Buffer(Vec<u8>),
}

/// The state the text mode keeps for a view.
pub struct TextModeContext<C: TextCodec> {
    pub text_codec: C,
    pub center_on_mark_move: bool,
    pub scroll_on_mark_move: bool,
    pub prev_buffer_log_revision: usize,
    pub prev_mark_revision: usize,
    pub mark_revision: usize,
    pub mark_index: usize,
    pub marks: Vec<Mark>,
    pub select_point: Vec<Mark>,
    pub copy_buffer: Vec<CopyData>,
    pub button_state: [u32; 8],
    pub char_map: Option<HashMap<u32, String>>,
    pub color_map: Option<HashMap<u32, (u8, u8, u8)>>,
    pub pre_compose_action: Vec<PostInputAction>,
    pub post_compose_action: Vec<PostInputAction>,
    pub prev_action: TextModeAction,
}

/// The color a control character is drawn in: green, cyan for DEL, light
/// blue for the carriage return, pink for the tabulation.
pub open spec fn control_color(k: u32) -> (u8, u8, u8) {
    if k == 0x7f {
        (0u8, 255u8, 255u8)
    } else if k == 0x0d {
        (0u8, 170u8, 255u8)
    } else if k == 0x09 {
        (242u8, 71u8, 132u8)
    } else {
        (0u8, 128u8, 0u8)
    }
}

/// The colors of the control characters (below U+0020, and DEL).
pub fn build_text_mode_color_map() -> (m: HashMap<u32, (u8, u8, u8)>)
    ensures
        m@ == Map::new(|k: u32| k < 0x20 || k == 0x7f, |k: u32| control_color(k)),
{
    let mut color_map: HashMap<u32, (u8, u8, u8)> = HashMap::new();
    let mut i: u32 = 0;
    while i < 0x20
        invariant
            i <= 0x20,
            color_map@ == Map::new(|k: u32| k < i, |k: u32| (0u8, 128u8, 0u8)),
        decreases 0x20 - i,
    {
        color_map.insert(i, (0, 128, 0));
        assert(color_map@ =~= Map::new(|k: u32| k < i + 1, |k: u32| (0u8, 128u8, 0u8)));
        i = i + 1;
    }
    color_map.insert(0x7f, (0x00, 0xff, 0xff));
    color_map.insert(0x0d, (0x00, 0xaa, 0xff));
    let tab_color = (242, 71, 132);
    color_map.insert(0x09, tab_color);
    assert(color_map@ =~= Map::new(|k: u32| k < 0x20 || k == 0x7f, |k: u32| control_color(k)));
    color_map
}

/// The hexadecimal digit of `d`.
pub open spec fn hex_digit(d: u32) -> char {
    if d < 10 {
        (d + 48) as char
    } else {
        (d + 87) as char
    }
}

/// The text that shows the control character `i`: `\\x` and its two
/// hexadecimal digits.
pub open spec fn hex_escape(i: u32) -> Seq<char> {
    seq!['\\', 'x', hex_digit(i / 16), hex_digit(i % 16)]
}

/// The control characters shown by their hexadecimal escape: those below
/// U+0020 but the tabulation, the line feed and U+001F, and DEL.
pub open spec fn is_escaped(k: u32) -> bool {
    k < 0x9 || (0xb <= k < 0x1f) || k == 0x7f
}

fn hex_digit_str(d: u32) -> (s: &'static str)
    requires
        d < 16,
    ensures
        s@ == seq![hex_digit(d)],
{
    match d {
        0 => {
            proof {
                reveal_strlit("0");
            }
            "0"
        },
        1 => {
            proof {
                reveal_strlit("1");
            }
            "1"
        },
        2 => {
            proof {
                reveal_strlit("2");
            }
            "2"
        },
        3 => {
            proof {
                reveal_strlit("3");
            }
            "3"
        },
        4 => {
            proof {
                reveal_strlit("4");
            }
            "4"
        },
        5 => {
            proof {
                reveal_strlit("5");
            }
            "5"
        },
        6 => {
            proof {
                reveal_strlit("6");
            }
            "6"
        },
        7 => {
            proof {
                reveal_strlit("7");
            }
            "7"
        },
        8 => {
            proof {
                reveal_strlit("8");
            }
            "8"
        },
        9 => {
            proof {
                reveal_strlit("9");
            }
            "9"
        },
        10 => {
            proof {
                reveal_strlit("a");
            }
            "a"
        },
        11 => {
            proof {
                reveal_strlit("b");
            }
            "b"
        },
        12 => {
            proof {
                reveal_strlit("c");
            }
            "c"
        },
        13 => {
            proof {
                reveal_strlit("d");
            }
            "d"
        },
        14 => {
            proof {
                reveal_strlit("e");
            }
            "e"
        },
        15 => {
            proof {
                reveal_strlit("f");
            }
            "f"
        },
        _ => {
            proof {
                reveal_strlit("f");
            }
            "f"
        },
    }
}

fn hex_escape_string(i: u32) -> (s: String)
    requires
        i < 256,
    ensures
        s@ == hex_escape(i),
{
    proof {
        reveal_strlit("\\x");
    }
    let mut s = String::from_str("\\x");
    s.append(hex_digit_str(i / 16));
    s.append(hex_digit_str(i % 16));
    s
}

/// The texts that show the control characters: the hexadecimal escapes,
/// and a blank for the line feed.
pub fn build_text_mode_char_map() -> (m: HashMap<u32, String>)
    ensures
        m@.dom() == Set::new(|k: u32| is_escaped(k) || k == 0x0a),
        m@[0x0a]@ == seq![' '],
        forall|k: u32| is_escaped(k) ==> #[trigger] m@[k]@ == hex_escape(k),
{
    let mut char_map: HashMap<u32, String> = HashMap::new();
    proof {
        reveal_strlit(" ");
        reveal_strlit("<DEL>");
    }
    char_map.insert(0x0a, String::from_str(" "));
    char_map.insert(0x7f, String::from_str("<DEL>"));
    let mut i: u32 = 0;
    while i < 0x9
        invariant
            i <= 0x9,
            char_map@.dom() == Set::new(|k: u32| k < i || k == 0x0a || k == 0x7f),
            char_map@[0x0a]@ == seq![' '],
            forall|k: u32| k < i ==> #[trigger] char_map@[k]@ == hex_escape(k),
        decreases 0x9 - i,
    {
        char_map.insert(i, hex_escape_string(i));
        assert(char_map@.dom() =~= Set::new(|k: u32| k < i + 1 || k == 0x0a || k == 0x7f));
        i = i + 1;
    }
    let mut i: u32 = 0xb;
    while i < 0x1f
        invariant
            0xb <= i <= 0x1f,
            char_map@.dom() == Set::new(|k: u32| k < 0x9 || (0xb <= k < i) || k == 0x0a || k == 0x7f),
            char_map@[0x0a]@ == seq![' '],
            forall|k: u32| (k < 0x9 || (0xb <= k < i)) ==> #[trigger] char_map@[k]@ == hex_escape(k),
        decreases 0x1f - i,
    {
        char_map.insert(i, hex_escape_string(i));
        assert(char_map@.dom() =~= Set::new(
            |k: u32| k < 0x9 || (0xb <= k < i + 1) || k == 0x0a || k == 0x7f,
        ));
        i = i + 1;
    }
    char_map.insert(0x7f, hex_escape_string(0x7f));
    assert(char_map@.dom() =~= Set::new(|k: u32| is_escaped(k) || k == 0x0a));
    char_map
}

/// The text mode.
pub struct TextMode {}

impl TextMode {
    pub fn new() -> (m: TextMode) {
        TextMode {  }
    }
}

impl<C: TextCodec> TextModeContext<C> {
    /// `self` is `o` but for the marks, the main mark, the selection
    /// points, the copy buffer, the queued actions and the last action.
    pub open spec fn same_settings(self, o: Self) -> bool {
        &&& self.text_codec == o.text_codec
        &&& self.center_on_mark_move == o.center_on_mark_move
        &&& self.scroll_on_mark_move == o.scroll_on_mark_move
        &&& self.prev_buffer_log_revision == o.prev_buffer_log_revision
        &&& self.prev_mark_revision == o.prev_mark_revision
        &&& self.mark_revision == o.mark_revision
        &&& self.button_state == o.button_state
        &&& self.char_map == o.char_map
        &&& self.color_map == o.color_map
        &&& self.post_compose_action == o.post_compose_action
    }

    /// `self` is `o` but for the marks, the main mark, the queued actions
    /// and the last action.
    pub open spec fn same_but_marks(self, o: Self) -> bool {
        &&& self.same_settings(o)
        &&& self.select_point == o.select_point
        &&& self.copy_buffer == o.copy_buffer
    }
}

impl<C: TextCodec> TextModeContext<C> {
    /// The context of a new view: one mark at the start of the document,
    /// no selection, the control characters colored.
    pub fn new(text_codec: C) -> (ctx: TextModeContext<C>)
        ensures
            ctx.marks@ == seq![Mark { offset: 0 }],
            ctx.mark_index == 0,
            ctx.select_point@.len() == 0,
            ctx.copy_buffer@.len() == 0,
            ctx.char_map matches Some(m) && m@.dom() == Set::new(
                |k: u32| is_escaped(k) || k == 0x0a,
            ) && m@[0x0a]@ == seq![' '] && forall|k: u32|
                is_escaped(k) ==> #[trigger] m@[k]@ == hex_escape(k),
            ctx.color_map matches Some(m) && m@ == Map::new(
                |k: u32| k < 0x20 || k == 0x7f,
                |k: u32| control_color(k),
            ),
            !ctx.center_on_mark_move,
            ctx.scroll_on_mark_move,
            ctx.prev_action == TextModeAction::MarksMove,
    {
        let mut marks: Vec<Mark> = Vec::new();
        marks.push(Mark { offset: 0 });
        TextModeContext {
            text_codec,
            center_on_mark_move: false,
            scroll_on_mark_move: true,
            prev_buffer_log_revision: 0,
            prev_mark_revision: 0,
            mark_revision: 0,
            mark_index: 0,
            marks,
            select_point: Vec::new(),
            copy_buffer: Vec::new(),
            button_state: [0; 8],
            char_map: Some(build_text_mode_char_map()),
            color_map: Some(build_text_mode_color_map()),
            pre_compose_action: Vec::new(),
            post_compose_action: Vec::new(),
            prev_action: TextModeAction::MarksMove,
        }
    }
}

} // verus!
