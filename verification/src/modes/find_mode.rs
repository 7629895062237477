//! Finding a string: the text typed in the controller view, and the
//! matches the main mark goes to, forward or backward.

use vstd::prelude::*;

use super::goto_line_mode::write_prompt;
use crate::buffer::{occurs_at, Buffer};
use crate::codec::{TextCodec, Utf8Codec};
use crate::mark::Mark;
use crate::screen::screen::Screen;
use crate::text_mode::editing::{encode_chars, encoded};
use crate::text_mode::text_mode::TextModeContext;
use crate::view::Id;

verus! {

/// The state of the mode in the text view it searches.
pub struct FindModeContext {
    pub active: bool,
    pub reverse: bool,
    pub find_str: Vec<char>,
    pub match_start: Option<u64>,
    pub match_end: Option<u64>,
    pub previous_encoded_str_len: usize,
    pub controller_view_id: Id,
}

impl FindModeContext {
    pub fn new() -> (c: FindModeContext)
        ensures
            !c.active,
            !c.reverse,
            c.find_str@.len() == 0,
            c.match_start is None,
            c.match_end is None,
            c.previous_encoded_str_len == 0,
            c.controller_view_id == Id(0),
    {
        FindModeContext {
            active: false,
            reverse: false,
            find_str: Vec::new(),
            match_start: None,
            match_end: None,
            previous_encoded_str_len: 0,
            controller_view_id: Id(0),
        }
    }

    /// Forgets the text typed and the match, and leaves the mode.
    pub fn reset(&mut self) -> (r: &mut Self)
        ensures
            r.find_str@.len() == 0,
            r.match_start is None,
            r.match_end is None,
            r.previous_encoded_str_len == 0,
            !r.active,
            r.reverse == old(self).reverse,
            r.controller_view_id == old(self).controller_view_id,
            *final(self) == *final(r),
    {
        self.find_str.clear();
        self.match_start = None;
        self.match_end = None;
        self.previous_encoded_str_len = 0;
        self.active = false;
        self
    }
}

pub struct FindMode {}

impl FindMode {
    pub fn new() -> (m: FindMode) {
        FindMode {  }
    }
}

/// The text the controller view shows: `Find: ` and the text typed.
pub open spec fn find_prompt(s: Seq<char>) -> Seq<u8> {
    encoded(&Utf8Codec {  }, seq!['F', 'i', 'n', 'd', ':', ' '] + s)
}

/// Writes the prompt of the text typed in the controller's document.
pub fn display_find_string(fm: &FindModeContext, doc: &mut Buffer)
    requires
        find_prompt(fm.find_str@).len() <= usize::MAX,
    ensures
        final(doc)@ == find_prompt(fm.find_str@),
{
    let head: Vec<char> = vec!['F', 'i', 'n', 'd', ':', ' '];
    assert(head@ =~= seq!['F', 'i', 'n', 'd', ':', ' ']);
    write_prompt(doc, head, &fm.find_str);
}

/// `u + v`, or the largest `u64` when that does not fit.
pub open spec fn sat_add(u: u64, v: int) -> u64 {
    if u + v <= u64::MAX {
        (u + v) as u64
    } else {
        u64::MAX
    }
}

/// Where the forward search starts: after the start of the current match
/// when the text did not grow, at it when it did, or at the main mark.
pub open spec fn next_search_start(fm: FindModeContext, len: nat, mark_offset: u64) -> int {
    match fm.match_start {
        Some(s) => s + if len <= fm.previous_encoded_str_len {
            1int
        } else {
            0int
        },
        None => mark_offset as int,
    }
}

/// What the search state and the marks become when the text, encoded as
/// `len` bytes, was found at `o`: the match starts at `o`, the selection
/// point is there and the main mark is after the match.
pub open spec fn found_at<C: TextCodec>(
    fm0: FindModeContext,
    fm: FindModeContext,
    tm0: TextModeContext<C>,
    tm: TextModeContext<C>,
    o: u64,
    len: nat,
) -> bool {
    &&& fm.match_start == Some(o)
    &&& fm.previous_encoded_str_len == len
    &&& tm.select_point@ == seq![Mark { offset: o }]
    &&& tm.marks@ == tm0.marks@.update(tm0.mark_index as int, Mark { offset: sat_add(o, len as int) })
    &&& fm.find_str == fm0.find_str
    &&& fm.active == fm0.active
    &&& fm.reverse == fm0.reverse
    &&& fm.controller_view_id == fm0.controller_view_id
}

/// Searches the text typed forward from the current match (or from the
/// main mark), and when found selects the match and puts the main mark
/// after it; returns the offset of a match the screen does not show, for
/// the caller to center the view on. The prompt is shown again.
pub fn find_controller_next<C: TextCodec>(
    fm: &mut FindModeContext,
    tm: &mut TextModeContext<C>,
    buffer: &Buffer,
    screen: &Screen,
    doc: &mut Buffer,
) -> (center: Option<u64>)
    requires
        old(tm).mark_index < old(tm).marks@.len(),
        encoded(&old(tm).text_codec, old(fm).find_str@).len() <= usize::MAX,
        find_prompt(old(fm).find_str@).len() <= usize::MAX,
        next_search_start(
            *old(fm),
            encoded(&old(tm).text_codec, old(fm).find_str@).len(),
            old(tm).marks@[old(tm).mark_index as int].offset,
        ) <= u64::MAX,
        screen.wf(),
        screen.covers_its_range(),
    ensures
        final(tm).same_settings(*old(tm)),
        final(tm).copy_buffer == old(tm).copy_buffer,
        final(tm).mark_index == old(tm).mark_index,
        final(tm).pre_compose_action == old(tm).pre_compose_action,
        final(tm).prev_action == old(tm).prev_action,
        final(doc)@ == find_prompt(old(fm).find_str@),
        ({
            let pat = encoded(&old(tm).text_codec, old(fm).find_str@);
            let from = next_search_start(*old(fm), pat.len(), old(tm).marks@[old(tm).mark_index as int].offset);
            let none_found = forall|q: int| from <= q < buffer@.len() ==> !occurs_at(buffer@, pat, q);
            &&& none_found ==> *final(fm) == *old(fm) && final(tm).marks == old(tm).marks && final(tm).select_point
                == old(tm).select_point && center is None
            &&& !none_found ==> exists|o: u64|
                {
                    &&& from <= o
                    &&& occurs_at(buffer@, pat, o as int)
                    &&& (forall|q: int| from <= q < o ==> !occurs_at(buffer@, pat, q))
                    &&& found_at(*old(fm), *final(fm), *old(tm), *final(tm), o, pat.len())
                    &&& final(fm).match_end == Some(sat_add(o, pat.len() as int))
                    &&& center == if screen.offset_in_range(o) {
                        None
                    } else {
                        Some(o)
                    }
                }
        }),
{
    let encoded_str = encode_chars(&tm.text_codec, &fm.find_str);
    let len = encoded_str.len();
    let mark_offset = tm.marks[tm.mark_index].offset;
    let offset = match fm.match_start {
        Some(match_start) => {
            let skip: u64 = if len <= fm.previous_encoded_str_len {
                1
            } else {
                0
            };
            match_start + skip
        },
        None => mark_offset,
    };
    let mut center = None;
    let found = buffer.find(encoded_str.as_slice(), offset, None);
    match found {
        Some(o) => {
            fm.previous_encoded_str_len = len;
            fm.match_start = Some(o);
            fm.match_end = Some(o.saturating_add(len as u64));
            if !screen.contains_offset(o) {
                center = Some(o);
            }
            tm.select_point.clear();
            tm.select_point.push(Mark { offset: o });
            let idx = tm.mark_index;
            tm.marks.set(idx, Mark { offset: o.saturating_add(len as u64) });
        },
        None => {},
    }
    display_find_string(fm, doc);
    proof {
        if let Some(o) = found {
            assert(found_at(*old(fm), *fm, *old(tm), *tm, o, len as nat));
            assert(occurs_at(buffer@, encoded_str@, o as int));
        }
    }
    center
}

/// Where the backward search starts: just before the current match, or at
/// the main mark.
pub open spec fn prev_search_start(fm: FindModeContext, mark_offset: u64) -> u64 {
    match fm.match_start {
        Some(s) => if s >= 1 {
            (s - 1) as u64
        } else {
            0
        },
        None => mark_offset,
    }
}

/// Searches the text typed backward from before the current match (or
/// from the main mark): the match must end there at the latest. When
/// found, selects the match and puts the main mark after it; returns the
/// offset of a match the screen does not show. The prompt is shown again.
pub fn find_controller_prev<C: TextCodec>(
    fm: &mut FindModeContext,
    tm: &mut TextModeContext<C>,
    buffer: &Buffer,
    screen: &Screen,
    doc: &mut Buffer,
) -> (center: Option<u64>)
    requires
        old(tm).mark_index < old(tm).marks@.len(),
        encoded(&old(tm).text_codec, old(fm).find_str@).len() <= usize::MAX,
        find_prompt(old(fm).find_str@).len() <= usize::MAX,
        screen.wf(),
        screen.covers_its_range(),
    ensures
        final(tm).same_settings(*old(tm)),
        final(tm).copy_buffer == old(tm).copy_buffer,
        final(tm).mark_index == old(tm).mark_index,
        final(tm).pre_compose_action == old(tm).pre_compose_action,
        final(tm).prev_action == old(tm).prev_action,
        final(doc)@ == find_prompt(old(fm).find_str@),
        final(fm).match_end == old(fm).match_end,
        ({
            let pat = encoded(&old(tm).text_codec, old(fm).find_str@);
            let from = prev_search_start(*old(fm), old(tm).marks@[old(tm).mark_index as int].offset);
            let none_found = forall|q: int| q + pat.len() <= from ==> !occurs_at(buffer@, pat, q);
            &&& none_found ==> *final(fm) == *old(fm) && final(tm).marks == old(tm).marks && final(tm).select_point
                == old(tm).select_point && center is None
            &&& !none_found ==> exists|o: u64|
                {
                    &&& o + pat.len() <= from
                    &&& occurs_at(buffer@, pat, o as int)
                    &&& (forall|q: int| o < q && q + pat.len() <= from ==> !occurs_at(buffer@, pat, q))
                    &&& found_at(*old(fm), *final(fm), *old(tm), *final(tm), o, pat.len())
                    &&& center == if screen.offset_in_range(o) {
                        None
                    } else {
                        Some(o)
                    }
                }
        }),
{
    let encoded_str = encode_chars(&tm.text_codec, &fm.find_str);
    let len = encoded_str.len();
    let mark_offset = tm.marks[tm.mark_index].offset;
    let offset = match fm.match_start {
        Some(match_start) => match_start.saturating_sub(1),
        None => mark_offset,
    };
    let mut center = None;
    let found = buffer.find_reverse(encoded_str.as_slice(), offset, None);
    match found {
        Some(o) => {
            fm.match_start = Some(o);
            fm.previous_encoded_str_len = len;
            tm.select_point.clear();
            tm.select_point.push(Mark { offset: o });
            let idx = tm.mark_index;
            tm.marks.set(idx, Mark { offset: o.saturating_add(len as u64) });
            if !screen.contains_offset(o) {
                center = Some(o);
            }
        },
        None => {},
    }
    display_find_string(fm, doc);
    proof {
        if let Some(o) = found {
            assert(found_at(*old(fm), *fm, *old(tm), *tm, o, len as nat));
            assert(occurs_at(buffer@, encoded_str@, o as int));
        }
    }
    center
}

/// Adds the code points `array` to the text searched, shows it, and
/// searches again in the direction of the mode (see `find_controller_next`
/// and `find_controller_prev`).
pub fn find_controller_add_char<C: TextCodec>(
    fm: &mut FindModeContext,
    tm: &mut TextModeContext<C>,
    buffer: &Buffer,
    screen: &Screen,
    doc: &mut Buffer,
    array: &Vec<char>,
) -> (center: Option<u64>)
    requires
        old(tm).mark_index < old(tm).marks@.len(),
        encoded(&old(tm).text_codec, old(fm).find_str@ + array@).len() <= usize::MAX,
        find_prompt(old(fm).find_str@ + array@).len() <= usize::MAX,
        !old(fm).reverse ==> next_search_start(
            *old(fm),
            encoded(&old(tm).text_codec, old(fm).find_str@ + array@).len(),
            old(tm).marks@[old(tm).mark_index as int].offset,
        ) <= u64::MAX,
        screen.wf(),
        screen.covers_its_range(),
    ensures
        final(fm).find_str@ == old(fm).find_str@ + array@,
        final(fm).reverse == old(fm).reverse,
        final(doc)@ == find_prompt(old(fm).find_str@ + array@),
        final(tm).same_settings(*old(tm)),
        final(tm).mark_index == old(tm).mark_index,
{
    let n = array.len();
    let mut i: usize = 0;
    let ghost s0 = fm.find_str@;
    while i < n
        invariant
            n == array@.len(),
            0 <= i <= n,
            fm.find_str@ == s0 + array@.take(i as int),
            fm.reverse == old(fm).reverse,
            fm.match_start == old(fm).match_start,
            fm.previous_encoded_str_len == old(fm).previous_encoded_str_len,
        decreases n - i,
    {
        fm.find_str.push(array[i]);
        i = i + 1;
        assert(fm.find_str@ =~= s0 + array@.take(i as int));
    }
    assert(array@.take(n as int) =~= array@);
    display_find_string(fm, doc);
    if fm.reverse {
        find_controller_prev(fm, tm, buffer, screen, doc)
    } else {
        find_controller_next(fm, tm, buffer, screen, doc)
    }
}

/// Removes the last code point of the text searched; the main mark goes
/// back to the start of the match, the selection is dropped, and the
/// search starts again forward.
pub fn find_controller_del_char<C: TextCodec>(
    fm: &mut FindModeContext,
    tm: &mut TextModeContext<C>,
    buffer: &Buffer,
    screen: &Screen,
    doc: &mut Buffer,
) -> (center: Option<u64>)
    requires
        old(tm).mark_index < old(tm).marks@.len(),
        encoded(&old(tm).text_codec, old(fm).find_str@).len() <= usize::MAX,
        find_prompt(old(fm).find_str@).len() <= usize::MAX,
        old(fm).match_start matches Some(s) ==> s < u64::MAX,
        screen.wf(),
        screen.covers_its_range(),
    ensures
        final(fm).find_str@ == if old(fm).find_str@.len() > 0 {
            old(fm).find_str@.drop_last()
        } else {
            old(fm).find_str@
        },
        final(doc)@ == find_prompt(final(fm).find_str@),
        final(tm).same_settings(*old(tm)),
        final(tm).mark_index == old(tm).mark_index,
{
    let ghost before = fm.find_str@;
    fm.find_str.pop();
    proof {
        if before.len() > 0 {
            assert(fm.find_str@ =~= before.drop_last());
            lemma_drop_last_shorter(&tm.text_codec, before);
            let h = seq!['F', 'i', 'n', 'd', ':', ' '];
            assert((h + before).drop_last() =~= h + before.drop_last());
            lemma_drop_last_shorter(&Utf8Codec {  }, h + before);
        }
    }
    let offset = fm.match_start;
    fm.previous_encoded_str_len = 0;
    tm.select_point.clear();
    match offset {
        Some(o) => {
            let idx = tm.mark_index;
            tm.marks.set(idx, Mark { offset: o });
        },
        None => {},
    }
    display_find_string(fm, doc);
    find_controller_next(fm, tm, buffer, screen, doc)
}

/// One code point less does not encode to more bytes.
proof fn lemma_drop_last_shorter<C: TextCodec>(codec: &C, s: Seq<char>)
    requires
        s.len() > 0,
    ensures
        encoded(codec, s.drop_last()).len() <= encoded(codec, s).len(),
{
}

} // verus!
