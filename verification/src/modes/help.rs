//! The help pop-up: a view sized to the help text, centered on the width
//! of the root view, with a corner mark at its bottom right.

use vstd::prelude::*;

verus! {

/// The index of the first line feed of `s`, or its length when it holds
/// none.
pub open spec fn first_line_feed(s: Seq<u8>) -> int
    decreases s.len(),
{
    if s.len() == 0 {
        0
    } else if s[0] == 0x0a {
        0
    } else {
        1 + first_line_feed(s.skip(1))
    }
}

/// The width of the widest line of `s` and its number of lines, in bytes:
/// lines end at a line feed, the line feed and a carriage return before it
/// are not counted, and a last line without a line feed counts when it is
/// not empty.
pub open spec fn text_size(s: Seq<u8>) -> (nat, nat)
    decreases s.len(),
{
    if s.len() == 0 {
        (0, 0)
    } else {
        let i = first_line_feed(s);
        proof {
            lemma_first_line_feed_bounds(s);
        }
        if i < s.len() {
            let w = if i > 0 && s[i - 1] == 0x0d {
                i - 1
            } else {
                i
            };
            let rest = text_size(s.skip(i + 1));
            (if w > rest.0 {
                w as nat
            } else {
                rest.0
            }, rest.1 + 1)
        } else {
            (s.len(), 1)
        }
    }
}

/// Where the help pop-up and its corner mark stand.
#[derive(Debug, Clone, Copy, PartialEq, Eq, Structural)]
pub struct PopupGeometry {
    pub x: usize,
    pub y: usize,
    pub width: usize,
    pub height: usize,
    pub corner_x: usize,
    pub corner_y: usize,
}

/// The pop-up of the help text `text` over a root view `root_width` wide:
/// one column wider than the widest line, one line per line of text,
/// centered, three lines from the top; the corner mark, two columns wide,
/// on its last line at its right end.
pub open spec fn help_geometry(root_width: usize, text: Seq<u8>) -> PopupGeometry {
    let (w, h) = text_size(text);
    let width = w + 1;
    let x = if root_width / 2 >= width / 2 {
        root_width / 2 - width / 2
    } else {
        0
    };
    PopupGeometry {
        x: x as usize,
        y: 3,
        width: width as usize,
        height: h as usize,
        corner_x: if width >= 2 {
            (width - 2) as usize
        } else {
            0
        },
        corner_y: (h - 1) as usize,
    }
}

/// The first line feed lies within the text, no line feed comes before
/// it.
pub proof fn lemma_first_line_feed_bounds(s: Seq<u8>)
    ensures
        0 <= first_line_feed(s) <= s.len(),
        first_line_feed(s) < s.len() ==> s[first_line_feed(s)] == 0x0a,
        forall|k: int| 0 <= k < first_line_feed(s) ==> s[k] != 0x0a,
    decreases s.len(),
{
    if s.len() > 0 && s[0] != 0x0a {
        lemma_first_line_feed_bounds(s.skip(1));
        assert forall|k: int| 0 <= k < first_line_feed(s) implies s[k] != 0x0a by {
            if k > 0 {
                assert(s[k] == s.skip(1)[k - 1]);
            }
        }
    }
}

/// A position `i` with no line feed before it and one at it (or the end)
/// is the first line feed.
proof fn lemma_first_line_feed_at(s: Seq<u8>, i: int)
    requires
        0 <= i <= s.len(),
        i < s.len() ==> s[i] == 0x0a,
        forall|k: int| 0 <= k < i ==> s[k] != 0x0a,
    ensures
        first_line_feed(s) == i,
    decreases s.len(),
{
    if s.len() > 0 && i > 0 {
        lemma_first_line_feed_at(s.skip(1), i - 1);
    }
}

/// The size of the help text `text` (see `text_size`).
fn help_text_size(text: &Vec<u8>) -> (r: (usize, usize))
    ensures
        r.0 == text_size(text@).0,
        r.1 == text_size(text@).1,
        r.0 <= text@.len(),
{
    let n = text.len();
    let mut start: usize = 0;
    let mut widest: usize = 0;
    let mut count: usize = 0;
    assert(text@.skip(0) =~= text@);
    while start < n
        invariant
            n == text@.len(),
            0 <= start <= n,
            count <= start,
            widest <= n,
            ({
                let rest = text_size(text@.skip(start as int));
                &&& text_size(text@).0 == if widest > rest.0 {
                    widest as nat
                } else {
                    rest.0
                }
                &&& text_size(text@).1 == count + rest.1
            }),
        decreases n - start,
    {
        let ghost s = text@.skip(start as int);
        let mut i: usize = start;
        while i < n && text[i] != 0x0a
            invariant
                n == text@.len(),
                start <= i <= n,
                forall|k: int| start <= k < i ==> text@[k] != 0x0a,
            decreases n - i,
        {
            i = i + 1;
        }
        proof {
            assert forall|k: int| 0 <= k < i - start implies s[k] != 0x0a by {
                assert(s[k] == text@[start + k]);
            }
            lemma_first_line_feed_at(s, i - start);
        }
        if i < n {
            let w = if i > start && text[i - 1] == 0x0d {
                i - 1 - start
            } else {
                i - start
            };
            proof {
                assert(s.skip(i - start + 1) =~= text@.skip(i + 1));
                if i > start {
                    assert(s[i - start - 1] == text@[i - 1]);
                }
            }
            if w > widest {
                widest = w;
            }
            count = count + 1;
            start = i + 1;
        } else {
            proof {
                assert(text@.skip(n as int) =~= Seq::<u8>::empty());
            }
            let w = n - start;
            if w > widest {
                widest = w;
            }
            count = count + 1;
            start = n;
        }
    }
    proof {
        assert(text@.skip(n as int) =~= Seq::<u8>::empty());
    }
    (widest, count)
}

/// Where the help pop-up for `text` stands over a root view `root_width`
/// wide (see `help_geometry`).
pub fn help_popup_geometry(root_width: usize, text: &Vec<u8>) -> (g: PopupGeometry)
    requires
        text_size(text@).1 > 0,
        text@.len() < usize::MAX,
    ensures
        g == help_geometry(root_width, text@),
{
    let (w, h) = help_text_size(text);
    let width = w + 1;
    let x = (root_width / 2).saturating_sub(width / 2);
    PopupGeometry { x, y: 3, width, height: h, corner_x: width.saturating_sub(2), corner_y: h - 1 }
}

} // verus!
