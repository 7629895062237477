//! The screen filled by the text layout: document offsets are optional
//! (layout metadata has none), each pushed cell may span several columns
//! and the screen remembers whether the end of the document was reached.

use unicode_width::UnicodeWidthChar;

use vstd::prelude::*;

use super::line::Line;
use super::line::LineCellIndex;
use super::line;
use super::{is_eol, resized_cell, Rect};
use crate::codepointinfo::CodepointInfo;

verus! {

pub type LineIndex = usize;

/// The display width that `unicode_width` gives to a code point.
pub uninterp spec fn char_display_width(c: char) -> Option<usize>;

/// `UnicodeWidthChar::width`: the number of columns `c` takes; `None` for
/// a control character. The crate's source returns `None` below U+0020
/// and from U+007F to U+009F, 1 from U+0020 to U+007E, and otherwise a
/// two-bit table entry, at most 3; which one is named, not stated.
#[verifier::external_body]
fn char_width(c: char) -> (w: Option<usize>)
    ensures
        w == char_display_width(c),
        (c as u32) < 0x20 ==> w is None,
        0x20 <= (c as u32) < 0x7f ==> w == Some(1usize),
        0x7f <= (c as u32) < 0xa0 ==> w is None,
        w matches Some(n) ==> n <= 3,
{
    UnicodeWidthChar::width(c)
}

/// The number of columns a pushed code point takes: its display width, one
/// for a control character.
pub open spec fn push_width(c: char) -> int {
    match char_display_width(c) {
        Some(w) => w as int,
        None => 1,
    }
}

impl Screen {
    /// The number of columns `c` takes on the screen: its display width, one
    /// for a control character.
    pub fn char_width(&self, c: char) -> (w: usize)
        ensures
            w == push_width(c),
            w <= 3,
    {
        match char_width(c) {
            Some(w) => w,
            None => 1,
        }
    }
}

/// A Screen is composed of Line(s).
#[derive(Debug)]
pub struct Screen {
    pub is_off_screen: bool,
    pub has_eof: bool,
    /// the underlying lines storage
    pub line: Vec<Line>,
    /// the index of the line filled with the push method
    pub current_line_index: LineIndex,
    /// the clipping rectangle: x, y and the exclusive ends `width`, `height`
    pub clip: Rect,
    /// maximum number of elements the screen line can hold
    pub max_width: usize,
    /// maximum number of lines the screen can hold
    pub max_height: usize,
    /// the number of elements pushed in the screen
    pub push_count: usize,
    /// the maximum number of elements the screen can hold
    pub push_capacity: usize,
    /// offset of the first pushed CodepointInfo (used by View)
    pub first_offset: Option<u64>,
    /// offset of the last pushed CodepointInfo (used by View)
    pub last_offset: Option<u64>,
    /// maximum offset of the document (eof)
    pub doc_max_offset: u64,
}

impl Screen {
    pub open spec fn spec_width(self) -> int {
        self.clip.width - self.clip.x
    }

    pub open spec fn spec_height(self) -> int {
        self.clip.height - self.clip.y
    }

    /// Index in `line` of the line `index` of the clipping rectangle.
    pub open spec fn row(self, index: int) -> int {
        self.clip.y + index
    }

    /// The screen is consistent: `max_height` lines of `max_width` cells,
    /// the clipping rectangle lies within them, the lines it covers are
    /// clipped to its columns and the fill cursor is within it.
    pub open spec fn wf(self) -> bool {
        &&& self.line@.len() == self.max_height
        &&& self.clip.x <= self.clip.width <= self.max_width
        &&& self.clip.y <= self.clip.height <= self.max_height
        &&& self.current_line_index <= self.spec_height()
        &&& forall|i: int|
            0 <= i < self.max_height ==> (#[trigger] self.line@[i]).wf() && self.line@[i].max_width
                == self.max_width
        &&& forall|i: int|
            self.clip.y <= i < self.clip.height ==> (#[trigger] self.line@[i]).start_index
                == self.clip.x && self.line@[i].clip_end() == self.clip.width
    }

    /// Every line is a fresh line of `width` cells and nothing was pushed.
    pub open spec fn is_empty_screen(self, width: usize, height: usize) -> bool {
        &&& self.wf()
        &&& self.max_width == width
        &&& self.max_height == height
        &&& self.clip == Rect { x: 0, y: 0, width, height }
        &&& self.current_line_index == 0
        &&& self.push_count == 0
        &&& forall|i: int| 0 <= i < height ==> (#[trigger] self.line@[i]).is_fresh(width)
    }

    /// Copies the clipped content of `src` into this screen, at (x, y) of the
    /// clipping rectangle; refused when `src` does not fit.
    pub fn copy_to(&mut self, x: usize, y: usize, src: &Screen) -> (ok: bool)
        requires
            old(self).wf(),
            src.wf(),
        ensures
            ok == (x + src.spec_width() <= old(self).spec_width() && y + src.spec_height()
                <= old(self).spec_height()),
            !ok ==> *final(self) == *old(self),
            ok ==> final(self).wf(),
            ok ==> final(self).same_but_lines(*old(self)),
            ok ==> forall|r: int, c: int|
                0 <= r < old(self).max_height && 0 <= c < old(self).max_width ==> {
                    let sy = r - old(self).clip.y - y;
                    let sx = c - old(self).clip.x - x;
                    #[trigger] final(self).line@[r].cells@[c] == if 0 <= sy < src.spec_height() && 0
                        <= sx < src.spec_width() {
                        line::LineCell {
                            cpi: src.line@[src.row(sy)].cell_at(sx).cpi,
                            is_used: old(self).line@[r].cells@[c].is_used,
                        }
                    } else {
                        old(self).line@[r].cells@[c]
                    }
                },
    {
        let sw = src.width();
        let sh = src.height();
        if sw > self.width() || x > self.width() - sw || sh > self.height() || y > self.height()
            - sh {
            return false;
        }
        let ghost orig = *self;
        let mut src_y: usize = 0;
        while src_y < sh
            invariant
                0 <= src_y <= sh,
                sw == src.spec_width(),
                sh == src.spec_height(),
                src.wf(),
                x + sw <= orig.spec_width(),
                y + sh <= orig.spec_height(),
                orig.wf(),
                self.wf(),
                self.same_but_lines(orig),
                forall|r: int, c: int|
                    0 <= r < orig.max_height && 0 <= c < orig.max_width ==> {
                        let sy = r - orig.clip.y - y;
                        let sx = c - orig.clip.x - x;
                        #[trigger] self.line@[r].cells@[c] == if 0 <= sy < src_y && 0 <= sx
                            < sw {
                            line::LineCell {
                                cpi: src.line@[src.row(sy)].cell_at(sx).cpi,
                                is_used: orig.line@[r].cells@[c].is_used,
                            }
                        } else {
                            orig.line@[r].cells@[c]
                        }
                    },
            decreases sh - src_y,
        {
            let mut src_x: usize = 0;
            while src_x < sw
                invariant
                    0 <= src_y < sh,
                    0 <= src_x <= sw,
                    sw == src.spec_width(),
                    sh == src.spec_height(),
                    src.wf(),
                    x + sw <= orig.spec_width(),
                    y + sh <= orig.spec_height(),
                    orig.wf(),
                    self.wf(),
                    self.same_but_lines(orig),
                    forall|r: int, c: int|
                        0 <= r < orig.max_height && 0 <= c < orig.max_width ==> {
                            let sy = r - orig.clip.y - y;
                            let sx = c - orig.clip.x - x;
                            #[trigger] self.line@[r].cells@[c] == if (0 <= sy < src_y && 0 <= sx
                                < sw) || (sy == src_y && 0 <= sx < src_x) {
                                line::LineCell {
                                    cpi: src.line@[src.row(sy)].cell_at(sx).cpi,
                                    is_used: orig.line@[r].cells@[c].is_used,
                                }
                            } else {
                                orig.line@[r].cells@[c]
                            }
                        },
                decreases sw - src_x,
            {
                if let Some(cpi_src) = src.get_cpinfo(src_x, src_y) {
                    let v = *cpi_src;
                    let ghost pre = *self;
                    if let Some(cpi_dst) = self.get_cpinfo_mut(x + src_x, y + src_y) {
                        *cpi_dst = v;
                    }
                    proof {
                        let r = self.row((y + src_y) as int);
                        assert(self.line@ =~= pre.line@.update(r, self.line@[r]));
                        assert forall|i: int|
                            0 <= i < self.max_height implies (#[trigger] self.line@[i]).wf()
                            && self.line@[i].max_width == self.max_width by {
                            if i != r {
                                assert(self.line@[i] == pre.line@[i]);
                            }
                        }
                    }
                }
                src_x = src_x + 1;
            }
            src_y = src_y + 1;
        }
        true
    }

    /// All the fields but the lines are those of `other`.
    pub open spec fn same_but_lines(self, other: Screen) -> bool {
        &&& self.line@.len() == other.line@.len()
        &&& self.is_off_screen == other.is_off_screen
        &&& self.current_line_index == other.current_line_index
        &&& self.clip == other.clip
        &&& self.max_width == other.max_width
        &&& self.max_height == other.max_height
        &&& self.push_count == other.push_count
        &&& self.push_capacity == other.push_capacity
        &&& self.first_offset == other.first_offset
        &&& self.last_offset == other.last_offset
        &&& self.doc_max_offset == other.doc_max_offset
        &&& self.has_eof == other.has_eof
    }

    pub fn clip_rect(&self) -> (r: Rect)
        ensures
            r == self.clip,
    {
        self.clip
    }

    pub fn width(&self) -> (w: usize)
        requires
            self.clip.x <= self.clip.width,
        ensures
            w == self.spec_width(),
    {
        self.clip.width - self.clip.x
    }

    pub fn height(&self) -> (h: usize)
        requires
            self.clip.y <= self.clip.height,
        ensures
            h == self.spec_height(),
    {
        self.clip.height - self.clip.y
    }
}

impl Screen {
    pub fn max_width(&self) -> (w: usize)
        ensures
            w == self.max_width,
    {
        self.max_width
    }

    pub fn max_height(&self) -> (h: usize)
        ensures
            h == self.max_height,
    {
        self.max_height
    }

    pub fn get_unclipped_line_mut(&mut self, index: usize) -> (r: Option<&mut Line>)
        requires
            old(self).line@.len() == old(self).max_height,
        ensures
            index < old(self).max_height ==> (r matches Some(l) && *l == old(self).line@[index as int]
                && final(self).line@ == old(self).line@.update(index as int, *final(l))
                && final(self).same_but_lines(*old(self))),
            index >= old(self).max_height ==> r is None && *final(self) == *old(self),
    {
        if index < self.max_height {
            Some(&mut self.line[index])
        } else {
            None
        }
    }

    pub fn get_line_mut(&mut self, index: usize) -> (r: Option<&mut Line>)
        requires
            old(self).wf(),
        ensures
            index < old(self).spec_height() ==> (r matches Some(l) && *l == old(self).line@[old(
                self,
            ).row(index as int)] && final(self).line@ == old(self).line@.update(
                old(self).row(index as int),
                *final(l),
            ) && final(self).same_but_lines(*old(self))),
            index >= old(self).spec_height() ==> r is None && *final(self) == *old(self),
    {
        if index < self.height() {
            let i = self.clip.y + index;
            Some(&mut self.line[i])
        } else {
            None
        }
    }

    pub fn get_unclipped_line(&self, index: usize) -> (r: Option<&Line>)
        requires
            self.line@.len() == self.max_height,
        ensures
            index < self.max_height ==> r == Some(&self.line@[index as int]),
            index >= self.max_height ==> r is None,
    {
        if index < self.max_height {
            Some(&self.line[index])
        } else {
            None
        }
    }

    pub fn get_line(&self, index: usize) -> (r: Option<&Line>)
        requires
            self.wf(),
        ensures
            index < self.spec_height() ==> r == Some(&self.line@[self.row(index as int)]),
            index >= self.spec_height() ==> r is None,
    {
        if index < self.height() {
            Some(&self.line[self.clip.y + index])
        } else {
            None
        }
    }

    /// A line is in use when it is not past the fill cursor and holds cells.
    pub open spec fn line_is_used(self, index: int) -> bool {
        index <= self.current_line_index && self.line@[self.row(index)].nb_cells > 0
    }

    pub fn get_used_line_mut(&mut self, index: usize) -> (r: Option<&mut Line>)
        requires
            old(self).wf(),
            index <= old(self).current_line_index ==> old(self).row(index as int) < old(
                self,
            ).max_height,
        ensures
            old(self).line_is_used(index as int) ==> (r matches Some(l) && *l == old(self).line@[old(
                self,
            ).row(index as int)] && final(self).line@ == old(self).line@.update(
                old(self).row(index as int),
                *final(l),
            ) && final(self).same_but_lines(*old(self))),
            !old(self).line_is_used(index as int) ==> r is None && *final(self) == *old(self),
    {
        if index <= self.current_line_index && self.line[self.clip.y + index].nb_cells > 0 {
            let i = self.clip.y + index;
            Some(&mut self.line[i])
        } else {
            None
        }
    }

    /// The used line at `index`, `index` being brought back to the fill
    /// cursor when it is past it.
    pub fn get_used_line_clipped(&mut self, index: usize) -> (r: (Option<&Line>, LineIndex))
        requires
            old(self).wf(),
        ensures
            *final(self) == *old(self),
            r.1 == if index < old(self).current_line_index {
                index
            } else {
                old(self).current_line_index
            },
            r.1 < old(self).spec_height() && old(self).line_is_used(r.1 as int) ==> r.0 == Some(
                &old(self).line@[old(self).row(r.1 as int)],
            ),
            !(r.1 < old(self).spec_height() && old(self).line_is_used(r.1 as int)) ==> r.0 is None,
    {
        let index = if index < self.current_line_index {
            index
        } else {
            self.current_line_index
        };
        (self.get_used_line(index), index)
    }

    // improve this: loop over line push_count > 0
    pub fn get_used_line(&self, index: usize) -> (r: Option<&Line>)
        requires
            self.wf(),
        ensures
            index < self.spec_height() && self.line_is_used(index as int) ==> r == Some(
                &self.line@[self.row(index as int)],
            ),
            !(index < self.spec_height() && self.line_is_used(index as int)) ==> r is None,
    {
        if index >= self.height() {
            return None;
        }
        if index <= self.current_line_index && self.line[self.clip.y + index].nb_cells > 0 {
            Some(&self.line[self.clip.y + index])
        } else {
            None
        }
    }

    pub fn get_first_used_line(&self) -> (r: Option<&Line>)
        requires
            self.wf(),
            self.push_count > 0 ==> self.clip.y < self.max_height,
        ensures
            self.push_count == 0 ==> r is None,
            self.push_count > 0 ==> r == Some(&self.line@[self.clip.y as int]),
    {
        if self.push_count() == 0 {
            None
        } else {
            Some(&self.line[self.clip.y])
        }
    }

    pub open spec fn spec_last_used_line_index(self) -> int {
        if self.current_line_index == self.spec_height() {
            self.current_line_index - 1
        } else {
            self.current_line_index as int
        }
    }

    pub fn get_last_used_line_index(&self) -> (i: LineIndex)
        requires
            self.wf(),
            self.current_line_index == self.spec_height() ==> self.current_line_index > 0,
        ensures
            i == self.spec_last_used_line_index(),
    {
        if self.current_line_index == self.height() {
            self.current_line_index - 1
        } else {
            self.current_line_index
        }
    }

    /// The cell at column x, line y of the clipping rectangle.
    pub open spec fn cell_xy(self, x: int, y: int) -> line::LineCell {
        self.line@[self.row(y)].cell_at(x)
    }

    pub fn get_cpinfo(&self, x: usize, y: usize) -> (r: Option<&CodepointInfo>)
        requires
            self.wf(),
        ensures
            x < self.spec_width() && y < self.spec_height() ==> r == Some(&self.cell_xy(x as int, y as int).cpi),
            !(x < self.spec_width() && y < self.spec_height()) ==> r is None,
    {
        match self.get_line(y) {
            None => None,
            Some(l) => l.get_cpi(x),
        }
    }

    pub fn get_cpinfo_mut(&mut self, x: usize, y: usize) -> (r: Option<&mut CodepointInfo>)
        requires
            old(self).wf(),
        ensures
            x < old(self).spec_width() && y < old(self).spec_height() ==> (r matches Some(c) && *c
                == old(self).cell_xy(x as int, y as int).cpi && final(self).same_but_lines(*old(self))
                && final(self).line@ == old(self).line@.update(
                old(self).row(y as int),
                final(self).line@[old(self).row(y as int)],
            ) && final(self).line@[old(self).row(y as int)].same_layout(
                old(self).line@[old(self).row(y as int)],
            ) && final(self).line@[old(self).row(y as int)].cells@ == old(self).line@[old(self).row(
                y as int,
            )].cells@.update(
                old(self).clip.x + x,
                line::LineCell { cpi: *final(c), is_used: old(self).cell_xy(x as int, y as int).is_used },
            )),
            !(x < old(self).spec_width() && y < old(self).spec_height()) ==> r is None
                && final(self).same_but_lines(*old(self)) && final(self).line@ == old(self).line@,
    {
        match self.get_line_mut(y) {
            None => None,
            Some(l) => l.get_mut_cpi(x),
        }
    }
}

impl Screen {
    pub fn set_clipping(&mut self, x: usize, y: usize, width: usize, height: usize)
        requires
            old(self).line@.len() == old(self).max_height,
            forall|i: int|
                0 <= i < old(self).max_height ==> (#[trigger] old(self).line@[i]).wf()
                    && old(self).line@[i].max_width == old(self).max_width,
            x < old(self).max_width,
            width <= old(self).max_width,
            x + width <= old(self).max_width,
            y < old(self).max_height,
            height <= old(self).max_height,
            y + height <= old(self).max_height,
        ensures
            final(self).wf(),
            final(self).clip == (Rect { x, y, width: (x + width) as usize, height: (y + height) as usize }),
            final(self).current_line_index == 0,
            final(self).line@.len() == old(self).line@.len(),
            forall|i: int|
                0 <= i < old(self).max_height ==> {
                    let l = #[trigger] final(self).line@[i];
                    let o = old(self).line@[i];
                    if y <= i < y + height {
                        &&& l.cells == o.cells
                        &&& l.nb_cells == 0
                        &&& !l.read_only
                        &&& l.hash_cache_value() == 0
                        &&& l.hash_unclipped_cache_value() == o.hash_unclipped_cache_value()
                    } else {
                        l == o
                    }
                },
            final(self).is_off_screen == old(self).is_off_screen,
            final(self).max_width == old(self).max_width,
            final(self).max_height == old(self).max_height,
            final(self).push_count == old(self).push_count,
            final(self).push_capacity == old(self).push_capacity,
            final(self).first_offset == old(self).first_offset,
            final(self).last_offset == old(self).last_offset,
            final(self).doc_max_offset == old(self).doc_max_offset,
            final(self).has_eof == old(self).has_eof,
    {
        let mut i: usize = y;
        while i < y + height
            invariant
                y <= i <= y + height,
                y + height <= self.max_height,
                x < self.max_width,
                x + width <= self.max_width,
                self.line@.len() == old(self).line@.len(),
                self.max_width == old(self).max_width,
                self.max_height == old(self).max_height,
                self.line@.len() == self.max_height,
                forall|k: int|
                    0 <= k < self.max_height ==> (#[trigger] self.line@[k]).wf()
                        && self.line@[k].max_width == self.max_width,
                forall|k: int|
                    0 <= k < old(self).max_height ==> {
                        let l = #[trigger] self.line@[k];
                        let o = old(self).line@[k];
                        if y <= k < i {
                            &&& l.cells == o.cells
                            &&& l.nb_cells == 0
                            &&& !l.read_only
                            &&& l.hash_cache_value() == 0
                            &&& l.hash_unclipped_cache_value() == o.hash_unclipped_cache_value()
                            &&& l.start_index == x
                            &&& l.clip_end() == x + width
                        } else {
                            l == o
                        }
                    },
                self.is_off_screen == old(self).is_off_screen,
                self.push_count == old(self).push_count,
                self.push_capacity == old(self).push_capacity,
                self.first_offset == old(self).first_offset,
                self.last_offset == old(self).last_offset,
                self.doc_max_offset == old(self).doc_max_offset,
                self.has_eof == old(self).has_eof,
            decreases y + height - i,
        {
            let ghost pre = self.line@;
            self.line[i].set_clipping(x, width);
            proof {
                assert forall|k: int| 0 <= k < self.max_height && k != i implies self.line@[k]
                    == pre[k] by {}
            }
            i = i + 1;
        }
        self.clip = Rect { x, y, width: x + width, height: y + height };
        self.current_line_index = 0;
    }

    pub fn push_available(&self) -> (a: usize)
        ensures
            a == if self.push_capacity >= self.push_count {
                self.push_capacity - self.push_count
            } else {
                0
            },
    {
        if self.push_capacity() >= self.push_count {
            self.push_capacity() - self.push_count
        } else {
            0
        }
    }

    pub fn push_count(&self) -> (c: usize)
        ensures
            c == self.push_count,
    {
        self.push_count
    }

    pub fn push_capacity(&self) -> (c: usize)
        ensures
            c == self.push_capacity,
    {
        self.push_capacity
    }
}


impl Screen {
    /// The used cell at column x of the used line y.
    pub open spec fn cell_is_used(self, x: int, y: int) -> bool {
        &&& 0 <= y < self.spec_height()
        &&& self.line_is_used(y)
        &&& 0 <= x < self.line@[self.row(y)].nb_cells
    }

    pub fn get_used_cpinfo(&self, x: usize, y: usize) -> (r: Option<&CodepointInfo>)
        requires
            self.wf(),
        ensures
            self.cell_is_used(x as int, y as int) ==> r == Some(&self.cell_xy(x as int, y as int).cpi),
            !self.cell_is_used(x as int, y as int) ==> r is None,
    {
        match self.get_used_line(y) {
            None => None,
            Some(l) => l.get_used_cpi(x),
        }
    }

    pub fn get_used_cpinfo_mut(&mut self, x: usize, y: usize) -> (r: Option<&mut CodepointInfo>)
        requires
            old(self).wf(),
            y <= old(self).current_line_index ==> old(self).row(y as int) < old(self).max_height,
        ensures
            old(self).line_is_used(y as int) && x < old(self).line@[old(self).row(y as int)].nb_cells
                ==> (r matches Some(c) && *c == old(self).line@[old(self).row(y as int)].cell_at(
                x as int,
            ).cpi && final(self).same_but_lines(*old(self)) && final(self).line@ == old(self).line@.update(
                old(self).row(y as int),
                final(self).line@[old(self).row(y as int)],
            ) && final(self).line@[old(self).row(y as int)].same_layout(
                old(self).line@[old(self).row(y as int)],
            ) && final(self).line@[old(self).row(y as int)].cells@ == old(self).line@[old(self).row(
                y as int,
            )].cells@.update(
                old(self).line@[old(self).row(y as int)].start_index + x,
                line::LineCell {
                    cpi: *final(c),
                    is_used: old(self).line@[old(self).row(y as int)].cell_at(x as int).is_used,
                },
            )),
            !(old(self).line_is_used(y as int) && x < old(self).line@[old(self).row(y as int)].nb_cells)
                ==> r is None && final(self).same_but_lines(*old(self)) && final(self).line@ == old(
                self,
            ).line@,
    {
        match self.get_used_line_mut(y) {
            None => None,
            Some(l) => l.get_mut_used_cpi(x),
        }
    }

    /// The first used cell of the first line, at (0, 0).
    pub fn get_mut_first_cpinfo(&mut self) -> (r: (Option<&mut CodepointInfo>, usize, usize))
        requires
            old(self).wf(),
            old(self).clip.y < old(self).max_height,
        ensures
            r.1 == 0 && r.2 == 0,
            old(self).line_is_used(0) ==> (r.0 matches Some(c) && *c == old(self).line@[old(self).row(
                0,
            )].cell_at(0).cpi && final(self).same_but_lines(*old(self)) && final(self).line@ == old(
                self,
            ).line@.update(old(self).row(0), final(self).line@[old(self).row(0)])
                && final(self).line@[old(self).row(0)].same_layout(old(self).line@[old(self).row(0)])
                && final(self).line@[old(self).row(0)].cells@ == old(self).line@[old(self).row(
                0,
            )].cells@.update(
                old(self).line@[old(self).row(0)].start_index as int,
                line::LineCell {
                    cpi: *final(c),
                    is_used: old(self).line@[old(self).row(0)].cell_at(0).is_used,
                },
            )),
            !old(self).line_is_used(0) ==> r.0 is None && final(self).same_but_lines(*old(self))
                && final(self).line@ == old(self).line@,
    {
        match self.get_used_line_mut(0) {
            None => (None, 0, 0),
            Some(l) => (l.get_mut_used_cpi(0), 0, 0),
        }
    }

    /// The first cell of the line at the fill cursor, with the number of
    /// cells used in that line and the cursor.
    pub fn get_last_cpinfo_mut(&mut self) -> (r: (Option<&mut CodepointInfo>, usize, usize))
        requires
            old(self).wf(),
            old(self).row(old(self).current_line_index as int) < old(self).max_height,
        ensures
            ({
                let y = old(self).current_line_index as int;
                let l = old(self).line@[old(self).row(y)];
                if old(self).line_is_used(y) {
                    &&& r.1 == l.nb_cells
                    &&& r.2 == y
                    &&& r.0 matches Some(c)
                    &&& *c == l.cell_at(0).cpi
                    &&& final(self).same_but_lines(*old(self))
                    &&& final(self).line@ == old(self).line@.update(
                        old(self).row(y),
                        final(self).line@[old(self).row(y)],
                    )
                    &&& final(self).line@[old(self).row(y)].same_layout(l)
                    &&& final(self).line@[old(self).row(y)].cells@ == l.cells@.update(
                        l.start_index as int,
                        line::LineCell { cpi: *final(c), is_used: l.cell_at(0).is_used },
                    )
                } else {
                    &&& r.0 is None
                    &&& r.1 == 0
                    &&& r.2 == 0
                    &&& final(self).same_but_lines(*old(self))
                    &&& final(self).line@ == old(self).line@
                }
            }),
    {
        let y = self.current_line_index;
        match self.get_used_line_mut(y) {
            None => (None, 0, 0),
            Some(l) => {
                let x = l.nb_cells;
                (l.get_mut_used_cpi(0), x, y)
            },
        }
    }

    pub fn get_first_cpinfo(&self) -> (r: (Option<&CodepointInfo>, usize, usize))
        requires
            self.wf(),
        ensures
            r.1 == 0 && r.2 == 0,
            0 < self.spec_height() && self.line_is_used(0) ==> r.0 == Some(&self.cell_xy(0, 0).cpi),
            !(0 < self.spec_height() && self.line_is_used(0)) ==> r.0 is None,
    {
        match self.get_used_line(0) {
            None => (None, 0, 0),
            Some(l) => (l.get_used_cpi(0), 0, 0),
        }
    }

    /// The first cell of the last used line, with the index of the last
    /// used cell of that line and the line index.
    pub fn get_last_cpinfo(&self) -> (r: (Option<&CodepointInfo>, usize, usize))
        requires
            self.wf(),
            self.current_line_index == self.clip.height ==> self.current_line_index > 0,
        ensures
            ({
                let y = if self.current_line_index == self.clip.height {
                    self.current_line_index - 1
                } else {
                    self.current_line_index as int
                };
                if y < self.spec_height() && self.line_is_used(y) {
                    r == (Some(&self.cell_xy(0, y).cpi), (self.line@[self.row(y)].nb_cells - 1) as usize, y as usize)
                } else {
                    r == (None::<&CodepointInfo>, 0usize, 0usize)
                }
            }),
    {
        let y = if self.current_line_index == self.clip.height {
            self.current_line_index - 1
        } else {
            self.current_line_index
        };
        match self.get_used_line(y) {
            None => (None, 0, 0),
            Some(l) => {
                if l.nb_cells > 0 {
                    let x = l.nb_cells - 1;
                    (l.get_used_cpi(0), x, y)
                } else {
                    (None, 0, 0)
                }
            },
        }
    }

    pub fn get_used_cpinfo_unclipped(&mut self, x: usize, y: usize) -> (r: (
        Option<&CodepointInfo>,
        LineCellIndex,
        LineIndex,
    ))
        requires
            old(self).wf(),
        ensures
            *final(self) == *old(self),
            r.1 == x && r.2 == y,
            old(self).cell_is_used(x as int, y as int) ==> r.0 == Some(
                &old(self).cell_xy(x as int, y as int).cpi,
            ),
            !old(self).cell_is_used(x as int, y as int) ==> r.0 is None,
    {
        match self.get_used_line(y) {
            None => (None, x, y),
            Some(l) => match l.get_used_cpi(x) {
                Some(optcpi) => (Some(optcpi), x, y),
                None => (None, x, y),
            },
        }
    }

    pub fn at_xy_mut(&mut self, x: usize, y: usize) -> (r: Option<&mut CodepointInfo>)
        requires
            old(self).wf(),
        ensures
            x < old(self).spec_width() && y < old(self).spec_height() ==> (r matches Some(c) && *c
                == old(self).cell_xy(x as int, y as int).cpi && final(self).same_but_lines(*old(self))
                && final(self).line@ == old(self).line@.update(
                old(self).row(y as int),
                final(self).line@[old(self).row(y as int)],
            ) && final(self).line@[old(self).row(y as int)].same_layout(
                old(self).line@[old(self).row(y as int)],
            ) && final(self).line@[old(self).row(y as int)].cells@ == old(self).line@[old(self).row(
                y as int,
            )].cells@.update(
                old(self).clip.x + x,
                line::LineCell { cpi: *final(c), is_used: old(self).cell_xy(x as int, y as int).is_used },
            )),
            !(x < old(self).spec_width() && y < old(self).spec_height()) ==> r is None
                && final(self).same_but_lines(*old(self)) && final(self).line@ == old(self).line@,
    {
        self.get_cpinfo_mut(x, y)
    }

}



/// Everything but the read-only flag of `a` is that of `b`, and `a` is
/// read-only.
pub open spec fn marked_read_only(a: Line, b: Line) -> bool {
    &&& a.read_only
    &&& a.cells == b.cells
    &&& a.nb_cells == b.nb_cells
    &&& a.max_width == b.max_width
    &&& a.start_index == b.start_index
    &&& a.clip_end() == b.clip_end()
    &&& a.hash_cache_value() == b.hash_cache_value()
    &&& a.hash_unclipped_cache_value() == b.hash_unclipped_cache_value()
}

impl Screen {
    pub fn with_dimension(dim: (usize, usize)) -> (s: Screen)
        requires
            dim.0 * dim.1 <= usize::MAX,
        ensures
            s.is_empty_screen(dim.0, dim.1),
            s.push_capacity == dim.0 * dim.1,
            !s.is_off_screen && !s.has_eof,
            s.first_offset is None && s.last_offset is None,
            s.doc_max_offset == 0,
    {
        Screen::new(dim.0, dim.1)
    }

    pub fn dimension(&self) -> (d: (usize, usize))
        requires
            self.wf(),
        ensures
            d == (self.spec_width() as usize, self.spec_height() as usize),
    {
        (self.width(), self.height())
    }

    pub fn new(width: usize, height: usize) -> (s: Screen)
        requires
            width * height <= usize::MAX,
        ensures
            s.is_empty_screen(width, height),
            s.push_capacity == width * height,
            !s.is_off_screen && !s.has_eof,
            s.first_offset is None && s.last_offset is None,
            s.doc_max_offset == 0,
            forall|i: int, j: int|
                0 <= i < height && 0 <= j < width ==> #[trigger] s.line@[i].cells@[j]
                    == line::LineCell::spec_new(),
    {
        let mut line: Vec<Line> = Vec::new();
        let mut i: usize = 0;
        while i < height
            invariant
                i <= height,
                line@.len() == i,
                forall|k: int| 0 <= k < i ==> (#[trigger] line@[k]).is_fresh(width),
                forall|k: int, j: int|
                    0 <= k < i && 0 <= j < width ==> #[trigger] line@[k].cells@[j]
                        == line::LineCell::spec_new(),
            decreases height - i,
        {
            line.push(Line::new(width));
            i = i + 1;
        }
        let push_capacity = width * height;
        Screen {
            is_off_screen: false,
            has_eof: false,
            line,
            current_line_index: 0,
            clip: Rect { x: 0, y: 0, width, height },
            max_width: width,
            max_height: height,
            push_count: 0,
            push_capacity,
            first_offset: None,
            last_offset: None,
            doc_max_offset: 0,
        }
    }

    /// The consistency check of the pushed offsets is switched off: it
    /// returns at once.
    pub fn check_invariants(&self) {
    }

    /// Gives the screen `height` lines of `width` cells, keeps what remains
    /// of the old content, and resets the clipping and the fill state.
    pub fn resize(&mut self, width: usize, height: usize)
        requires
            width > 0,
            height > 0,
            width * height <= usize::MAX,
        ensures
            final(self).wf(),
            final(self).max_width == width,
            final(self).max_height == height,
            final(self).clip == (Rect { x: 0, y: 0, width, height }),
            final(self).current_line_index == 0,
            final(self).push_count == 0,
            final(self).first_offset is None,
            final(self).last_offset is None,
            final(self).doc_max_offset == 0,
            final(self).push_capacity == width * height,
            final(self).is_off_screen == old(self).is_off_screen,
            final(self).has_eof == old(self).has_eof,
            forall|i: int|
                0 <= i < height ==> (#[trigger] final(self).line@[i]).max_width == width
                    && final(self).line@[i].nb_cells == 0 && !final(self).line@[i].read_only,
            forall|i: int, j: int|
                0 <= i < height && 0 <= j < width ==> #[trigger] final(self).line@[i].cells@[j]
                    == if i < old(self).line@.len() {
                    resized_cell(old(self).line@[i], j)
                } else {
                    line::LineCell::spec_new()
                },
    {
        if height < self.line.len() {
            self.line.truncate(height);
        }
        let kept = self.line.len();
        let mut i: usize = 0;
        while i < kept
            invariant
                self.is_off_screen == old(self).is_off_screen,
                self.has_eof == old(self).has_eof,
                self.push_capacity == old(self).push_capacity,
                i <= kept,
                kept <= height,
                kept == self.line@.len(),
                kept == if height < old(self).line@.len() {
                    height as int
                } else {
                    old(self).line@.len() as int
                },
                forall|k: int|
                    0 <= k < i ==> (#[trigger] self.line@[k]).is_fresh(width) && forall|j: int|
                        0 <= j < width ==> #[trigger] self.line@[k].cells@[j] == resized_cell(
                            old(self).line@[k],
                            j,
                        ),
                forall|k: int| i <= k < kept ==> #[trigger] self.line@[k] == old(self).line@[k],
            decreases kept - i,
        {
            let ghost pre = self.line@;
            self.line[i].resize(width);
            proof {
                assert forall|k: int| 0 <= k < kept && k != i implies self.line@[k] == pre[k] by {}
            }
            i = i + 1;
        }
        while self.line.len() < height
            invariant
                self.is_off_screen == old(self).is_off_screen,
                self.has_eof == old(self).has_eof,
                self.push_capacity == old(self).push_capacity,
                kept <= self.line@.len() <= height,
                kept == if height < old(self).line@.len() {
                    height as int
                } else {
                    old(self).line@.len() as int
                },
                forall|k: int|
                    0 <= k < kept ==> (#[trigger] self.line@[k]).is_fresh(width) && forall|j: int|
                        0 <= j < width ==> #[trigger] self.line@[k].cells@[j] == resized_cell(
                            old(self).line@[k],
                            j,
                        ),
                forall|k: int|
                    kept <= k < self.line@.len() ==> (#[trigger] self.line@[k]).is_fresh(width)
                        && forall|j: int|
                        0 <= j < width ==> #[trigger] self.line@[k].cells@[j]
                            == line::LineCell::spec_new(),
            decreases height - self.line@.len(),
        {
            self.line.push(Line::new(width));
        }
        self.max_height = height;
        self.max_width = width;
        self.set_clipping(0, 0, width, height);

        self.current_line_index = 0;
        self.push_count = 0;
        self.first_offset = None;
        self.last_offset = None;
        self.doc_max_offset = 0;
        self.push_capacity = width * height;
    }

    /// Closes the current line and moves the fill cursor to the next one.
    pub fn select_next_line_index(&mut self) -> (r: LineIndex)
        requires
            old(self).wf(),
        ensures
            final(self).wf(),
            final(self).same_setup(*old(self)),
            final(self).push_count == old(self).push_count,
            final(self).push_capacity == old(self).push_capacity,
            final(self).first_offset == old(self).first_offset,
            final(self).last_offset == old(self).last_offset,
            r == final(self).current_line_index,
            old(self).current_line_index == old(self).spec_height() ==> final(self).line@ == old(
                self,
            ).line@ && r == old(self).current_line_index,
            old(self).current_line_index < old(self).spec_height() ==> {
                let y = old(self).row(old(self).current_line_index as int);
                &&& r == old(self).current_line_index + 1
                &&& final(self).line@ == old(self).line@.update(y, final(self).line@[y])
                &&& marked_read_only(final(self).line@[y], old(self).line@[y])
            },
    {
        if self.current_line_index == self.height() {
            return self.current_line_index;
        }
        let y = self.clip.y + self.current_line_index;
        let ghost pre = self.line@;
        self.line[y].read_only = true;
        proof {
            assert(self.line@ =~= pre.update(y as int, self.line@[y as int]));
            assert forall|i: int| 0 <= i < self.max_height && i != y implies self.line@[i]
                == pre[i] by {}
        }
        self.current_line_index += 1;
        self.current_line_index
    }

    pub fn has_eof(&self) -> (b: bool)
        ensures
            b == self.has_eof,
    {
        self.has_eof
    }

    pub fn set_has_eof(&mut self)
        ensures
            final(self).has_eof,
            final(self).line == old(self).line,
            final(self).is_off_screen == old(self).is_off_screen,
            final(self).current_line_index == old(self).current_line_index,
            final(self).clip == old(self).clip,
            final(self).max_width == old(self).max_width,
            final(self).max_height == old(self).max_height,
            final(self).push_count == old(self).push_count,
            final(self).push_capacity == old(self).push_capacity,
            final(self).first_offset == old(self).first_offset,
            final(self).last_offset == old(self).last_offset,
            final(self).doc_max_offset == old(self).doc_max_offset,
    {
        self.has_eof = true;
    }

    /// Everything that a push leaves alone.
    pub open spec fn same_setup(self, other: Screen) -> bool {
        &&& self.line@.len() == other.line@.len()
        &&& self.is_off_screen == other.is_off_screen
        &&& self.has_eof == other.has_eof
        &&& self.clip == other.clip
        &&& self.max_width == other.max_width
        &&& self.max_height == other.max_height
        &&& self.doc_max_offset == other.doc_max_offset
    }

    /// The line used by the last push, chosen from the fill cursor.
    pub fn get_last_used_line(&self) -> (r: Option<&Line>)
        requires
            self.wf(),
            self.push_count > 0 ==> self.spec_last_used_line_index() >= 0
                && self.spec_last_used_line_index() < self.line@.len(),
        ensures
            self.push_count == 0 ==> r is None,
            self.push_count > 0 ==> {
                let i0 = self.spec_last_used_line_index();
                let i = if self.line@[i0].nb_cells == 0 && i0 > 1 {
                    i0 - 1
                } else {
                    i0
                };
                if self.line@[i].nb_cells == 0 {
                    r is None
                } else {
                    r == Some(&self.line@[i])
                }
            },
    {
        if self.push_count() == 0 {
            return None;
        }
        let mut idx = self.get_last_used_line_index();
        if self.line[idx].nb_cells == 0 && idx > 1 {
            idx -= 1;
        }
        if self.line[idx].nb_cells == 0 {
            None
        } else {
            Some(&self.line[idx])
        }
    }

    pub fn at_xy(&self, x: usize, y: usize) -> (r: Option<&CodepointInfo>)
        requires
            self.wf(),
        ensures
            x < self.spec_width() && y < self.spec_height() ==> r == Some(&self.cell_xy(x as int, y as int).cpi),
            !(x < self.spec_width() && y < self.spec_height()) ==> r is None,
    {
        self.get_cpinfo(x, y)
    }
}

impl Screen {
    /// Free cells of line `c` of the clipping rectangle.
    pub open spec fn avail(self, c: int) -> int {
        self.line@[self.row(c)].spec_width() - self.line@[self.row(c)].nb_cells
    }

    /// The line (index in the clipping rectangle) where a push of a code
    /// point `w` columns wide lands, starting at line `c` whose read-only
    /// flag is `ro`: the spec's height when it lands nowhere.
    ///
    /// A line too narrow for the code point is skipped, then a read-only
    /// line is skipped, then the push is tried; when the line refuses it,
    /// the line is closed and the search goes on from it.
    pub open spec fn landing(self, c: int, ro: bool, w: int) -> int
        decreases self.spec_height() - c, if ro {
            0int
        } else {
            1int
        },
    {
        let h = self.spec_height();
        if c < 0 || c >= h {
            h
        } else {
            let c1 = if w > self.avail(c) {
                c + 1
            } else {
                c
            };
            let ro1 = if w > self.avail(c) {
                c + 1 < h && self.line@[self.row(c + 1)].read_only
            } else {
                ro
            };
            if c1 >= h {
                h
            } else {
                let c2 = if ro1 {
                    c1 + 1
                } else {
                    c1
                };
                let ro2 = if ro1 {
                    c1 + 1 < h && self.line@[self.row(c1 + 1)].read_only
                } else {
                    false
                };
                if c2 >= h {
                    h
                } else if self.line@[self.row(c2)].nb_cells < self.line@[self.row(c2)].spec_width()
                    && !ro2 {
                    c2
                } else {
                    self.landing(c2, true, w)
                }
            }
        }
    }

    /// `f` is `o` once `cpi` was pushed, `r` being what push returned.
    pub open spec fn push_post(o: Screen, f: Screen, cpi: CodepointInfo, r: (bool, LineIndex)) -> bool {
        let h = o.spec_height();
        let cur = o.current_line_index as int;
        &&& f.wf()
        &&& f.same_setup(o)
        &&& if cur == h {
            &&& r == (false, o.current_line_index)
            &&& f.line@ == o.line@
            &&& f.current_line_index == o.current_line_index
            &&& f.push_count == o.push_count
            &&& f.push_capacity == o.push_capacity
            &&& f.first_offset == o.first_offset
            &&& f.last_offset == o.last_offset
        } else {
            let l = o.landing(cur, o.line@[o.row(cur)].read_only, push_width(cpi.cp));
            &&& r == (l < h, l as usize)
            &&& f.current_line_index == l
            &&& f.push_capacity == o.push_capacity
            &&& forall|i: int|
                0 <= i < o.max_height ==> {
                    let a = #[trigger] f.line@[i];
                    let b = o.line@[i];
                    if o.row(cur) <= i < o.row(l) {
                        marked_read_only(a, b)
                    } else if l < h && i == o.row(l) {
                        &&& b.after_push(a, cpi)
                        &&& b.push_accepts()
                        &&& a.read_only == (a.nb_cells == a.spec_width())
                    } else {
                        a == b
                    }
                }
            &&& if l < h {
                &&& f.push_count == o.push_count + 1
                &&& f.first_offset == if o.push_count == 0 {
                    cpi.offset
                } else {
                    o.first_offset
                }
                &&& f.last_offset == cpi.offset
            } else {
                &&& f.push_count == o.push_count
                &&& f.first_offset == o.first_offset
                &&& f.last_offset == o.last_offset
            }
        }
    }

    /// A cell that was pushed can be read back: it is the cell of the line
    /// the push reported that follows the cells that line used before.
    pub proof fn lemma_push_then_read(o: Screen, f: Screen, cpi: CodepointInfo, r: (bool, LineIndex))
        requires
            o.wf(),
            o.clip.x == 0,
            Screen::push_post(o, f, cpi, r),
            r.0,
        ensures
            r.1 < o.spec_height(),
            f.cell_xy(o.line@[o.row(r.1 as int)].nb_cells as int, r.1 as int) == (line::LineCell {
                cpi,
                is_used: true,
            }),
            f.line@[o.row(r.1 as int)].nb_cells == o.line@[o.row(r.1 as int)].nb_cells + 1,
            f.push_count == o.push_count + 1,
            f.last_offset == cpi.offset,
    {
        let i = o.row(r.1 as int);
        let a = f.line@[i];
        let b = o.line@[i];
        assert(0 <= i < o.max_height);
        assert(b.after_push(a, cpi) && b.push_accepts());
        assert(a.cells@ == b.cells@.update(
            b.start_index + b.nb_cells,
            line::LineCell { cpi, is_used: true },
        ));
        assert(f.row(r.1 as int) == i);
    }

    /// A screen whose fill cursor is past its last line refuses every cell
    /// and does not change.
    pub proof fn lemma_push_on_full_screen(o: Screen, f: Screen, cpi: CodepointInfo, r: (bool, LineIndex))
        requires
            Screen::push_post(o, f, cpi, r),
            o.current_line_index == o.spec_height(),
        ensures
            r == (false, o.current_line_index),
            f.line@ == o.line@,
            f.current_line_index == o.current_line_index,
            f.push_count == o.push_count,
            f.first_offset == o.first_offset,
            f.last_offset == o.last_offset,
    {
    }

    /// Appends a cell at the fill cursor (see `landing` for the line it
    /// goes to).
    #[verifier::rlimit(60)]
    pub fn push(&mut self, cpi: CodepointInfo) -> (r: (bool, LineIndex))
        requires
            old(self).wf(),
            old(self).current_line_index < old(self).spec_height() ==> {
                &&& old(self).clip.x == 0
                &&& old(self).push_count < usize::MAX
                &&& (cpi.metadata <==> cpi.size == 0)
            },
        ensures
            Self::push_post(*old(self), *final(self), cpi, r),
    {
        self.check_invariants();
        if self.current_line_index == self.height() {
            return (false, self.current_line_index);
        }
        let w: usize = match char_width(cpi.cp) {
            Some(w) => w,
            None => 1,
        };
        let ghost o = *self;
        let ghost cur0 = self.current_line_index as int;
        let ghost l = if cur0 < o.spec_height() {
            o.landing(cur0, o.line@[o.row(cur0)].read_only, w as int)
        } else {
            o.spec_height()
        };
        loop
            invariant
                self.wf(),
                self.clip.x == 0,
                self.same_setup(o),
                self.push_count == o.push_count,
                self.push_capacity == o.push_capacity,
                self.first_offset == o.first_offset,
                self.last_offset == o.last_offset,
                o == *old(self),
                o.wf(),
                o.push_count < usize::MAX,
                w == push_width(cpi.cp),
                cur0 == o.current_line_index,
                cur0 <= self.current_line_index <= o.spec_height(),
                cur0 == o.spec_height() ==> l == o.spec_height() && self.line@ == o.line@
                    && self.current_line_index == cur0,
                cur0 < o.spec_height() ==> l == o.landing(
                    cur0,
                    o.line@[o.row(cur0)].read_only,
                    w as int,
                ),
                self.current_line_index < o.spec_height() ==> l == o.landing(
                    self.current_line_index as int,
                    self.line@[o.row(self.current_line_index as int)].read_only,
                    w as int,
                ),
                self.current_line_index == o.spec_height() ==> l == o.spec_height()
                    && cur0 == o.spec_height(),
                forall|i: int|
                    0 <= i < o.max_height ==> {
                        let a = #[trigger] self.line@[i];
                        let b = o.line@[i];
                        if o.row(cur0) <= i < o.row(self.current_line_index as int) {
                            marked_read_only(a, b)
                        } else if i == o.row(self.current_line_index as int) {
                            a == b || marked_read_only(a, b)
                        } else {
                            a == b
                        }
                    },
            decreases o.spec_height() - self.current_line_index, if self.current_line_index
                < o.spec_height() && self.line@[o.row(self.current_line_index as int)].read_only {
                0int
            } else {
                1int
            },
        {
            if self.current_line_index == self.height() {
                return (false, self.current_line_index);
            }
            let y = self.clip.y + self.current_line_index;
            if w > self.line[y].available() {
                let ghost pre = self.line@;
                self.line[y].read_only = true;
                proof {
                    assert forall|i: int| 0 <= i < self.max_height && i != y implies self.line@[i]
                        == pre[i] by {}
                }
                self.current_line_index += 1;
                if self.current_line_index == self.height() {
                    return (false, self.current_line_index);
                }
            }
            let y = self.clip.y + self.current_line_index;
            if self.line[y].read_only {
                self.current_line_index += 1;
                if self.current_line_index == self.height() {
                    return (false, self.current_line_index);
                }
            }
            let y = self.clip.y + self.current_line_index;
            let ghost pre = self.line@;
            let (ok, _) = self.line[y].push(cpi);
            proof {
                assert forall|i: int| 0 <= i < self.max_height && i != y implies self.line@[i]
                    == pre[i] by {}
            }
            if ok {
                if self.push_count == 0 {
                    self.first_offset = cpi.offset;
                }
                self.last_offset = cpi.offset;
                self.push_count += 1;
                return (ok, self.current_line_index);
            }
        }
    }
}

impl Screen {
    /// Pushes the code points in order until one is refused; returns how
    /// many were pushed, the fill cursor and the last recorded offset.
    pub fn append(&mut self, cpi_vec: &Vec<CodepointInfo>) -> (r: (usize, LineIndex, Option<u64>))
        requires
            old(self).wf(),
            old(self).push_count + cpi_vec@.len() <= usize::MAX,
            old(self).current_line_index < old(self).spec_height() ==> {
                &&& old(self).clip.x == 0
                &&& forall|i: int|
                    0 <= i < cpi_vec@.len() ==> (#[trigger] cpi_vec@[i]).metadata <==> cpi_vec@[i].size == 0
            },
        ensures
            r.0 <= cpi_vec@.len(),
            r.1 == final(self).current_line_index,
            r.2 == final(self).last_offset,
            exists|states: Seq<Screen>|
                {
                    &&& #[trigger] states.len() == (if r.0 < cpi_vec@.len() {
                        r.0 + 2
                    } else {
                        r.0 + 1
                    })
                    &&& states[0] == *old(self)
                    &&& states.last() == *final(self)
                    &&& forall|i: int|
                        0 <= i < r.0 ==> Self::push_post(
                            states[i],
                            #[trigger] states[i + 1],
                            cpi_vec@[i],
                            (true, states[i + 1].current_line_index),
                        )
                    &&& r.0 < cpi_vec@.len() ==> Self::push_post(
                        states[r.0 as int],
                        states[r.0 + 1],
                        cpi_vec@[r.0 as int],
                        (false, r.1),
                    )
                },
    {
        let ghost mut states: Seq<Screen> = seq![*self];
        let mut idx: usize = 0;
        while idx < cpi_vec.len()
            invariant
                idx <= cpi_vec@.len(),
                self.wf(),
                self.clip == old(self).clip,
                idx > 0 ==> old(self).current_line_index < old(self).spec_height(),
                idx == 0 ==> *self == *old(self),
                self.push_count == old(self).push_count + idx,
                old(self).push_count + cpi_vec@.len() <= usize::MAX,
                old(self).current_line_index < old(self).spec_height() ==> {
                    &&& old(self).clip.x == 0
                    &&& forall|i: int|
                        0 <= i < cpi_vec@.len() ==> (#[trigger] cpi_vec@[i]).metadata <==> cpi_vec@[i].size == 0
                },
                states.len() == idx + 1,
                states[0] == *old(self),
                states.last() == *self,
                forall|i: int|
                    0 <= i < idx ==> Self::push_post(
                        states[i],
                        #[trigger] states[i + 1],
                        cpi_vec@[i],
                        (true, states[i + 1].current_line_index),
                    ),
            decreases cpi_vec@.len() - idx,
        {
            let ret = self.push(cpi_vec[idx]);
            proof {
                states = states.push(*self);
            }
            if !ret.0 {
                proof {
                    assert(Self::push_post(states[idx as int], states[idx + 1], cpi_vec@[idx as int], (false, ret.1)));
                    assert(states.len() == idx + 2);
                }
                return (idx, ret.1, self.last_offset);
            }
            idx = idx + 1;
        }
        (cpi_vec.len(), self.current_line_index, self.last_offset)
    }

    /// Repeats `cpi` until the current line is full; always reports that the
    /// last push did not go through.
    pub fn fill_with_cpi_until_eol(&mut self, cpi: CodepointInfo) -> (r: (bool, LineIndex))
        requires
            old(self).wf(),
            old(self).clip.x == 0,
            old(self).push_count + old(self).max_width <= usize::MAX,
            cpi.metadata <==> cpi.size == 0,
        ensures
            !r.0,
            r.1 == final(self).current_line_index,
            old(self).current_line_index == old(self).spec_height() || old(self).avail(
                old(self).current_line_index as int,
            ) == 0 || old(self).line@[old(self).row(
                old(self).current_line_index as int,
            )].read_only ==> *final(self) == *old(self),
            !(old(self).current_line_index == old(self).spec_height() || old(self).avail(
                old(self).current_line_index as int,
            ) == 0 || old(self).line@[old(self).row(
                old(self).current_line_index as int,
            )].read_only) ==> exists|states: Seq<Screen>|
                {
                    let n = #[trigger] states.len() - 1;
                    &&& 1 <= n <= old(self).avail(old(self).current_line_index as int)
                    &&& states[0] == *old(self)
                    &&& states[n] == *final(self)
                    &&& forall|i: int|
                        0 <= i < n - 1 ==> Self::push_post(
                            states[i],
                            #[trigger] states[i + 1],
                            cpi,
                            (true, states[i + 1].current_line_index),
                        )
                    &&& Self::push_post(
                        states[n - 1],
                        states[n],
                        cpi,
                        (states[n].push_count > states[n - 1].push_count, r.1),
                    )
                    &&& states[n].push_count > states[n - 1].push_count ==> n == old(self).avail(
                        old(self).current_line_index as int,
                    )
                },
    {
        if self.current_line_index == self.height() {
            return (false, self.current_line_index);
        }
        let y = self.clip.y + self.current_line_index;
        let remain = self.line[y].available();
        if remain == 0 || self.line[y].read_only {
            return (false, self.current_line_index);
        }
        let ghost mut states: Seq<Screen> = seq![*self];
        let mut k: usize = 0;
        while k < remain
            invariant
                k <= remain,
                remain == old(self).avail(old(self).current_line_index as int),
                !(old(self).current_line_index == old(self).spec_height() || old(self).avail(
                    old(self).current_line_index as int,
                ) == 0 || old(self).line@[old(self).row(
                    old(self).current_line_index as int,
                )].read_only),
                remain <= old(self).max_width,
                remain > 0,
                self.wf(),
                self.clip.x == 0,
                self.push_count == old(self).push_count + k,
                self.max_width == old(self).max_width,
                old(self).push_count + old(self).max_width <= usize::MAX,
                cpi.metadata <==> cpi.size == 0,
                states.len() == k + 1,
                states[0] == *old(self),
                states.last() == *self,
                forall|i: int| 0 <= i <= k ==> (#[trigger] states[i]).push_count == old(self).push_count + i,
                forall|i: int|
                    0 <= i < k ==> Self::push_post(
                        states[i],
                        #[trigger] states[i + 1],
                        cpi,
                        (true, states[i + 1].current_line_index),
                    ),
            decreases remain - k,
        {
            let (ok, li) = self.push(cpi);
            proof {
                states = states.push(*self);
            }
            if !ok {
                proof {
                    assert(states[(k + 1) as int] == *self);
                    assert(Self::push_post(states[k as int], states[k + 1], cpi, (false, li)));
                    assert(states.len() == k + 2);
                }
                return (ok, li);
            }
            k = k + 1;
        }
        proof {
            let j = (k - 1) as int;
            assert(states[j].push_count == old(self).push_count + j);
            assert(Self::push_post(states[j], states[j + 1], cpi, (true, states[j + 1].current_line_index)));
        }
        (false, self.current_line_index)
    }

    /// Empties every line, resets the fill state, the hints and the clipping.
    pub fn clear(&mut self)
        requires
            old(self).wf(),
            old(self).max_width > 0,
            old(self).max_height > 0,
            old(self).max_width * old(self).max_height <= usize::MAX,
        ensures
            final(self).wf(),
            final(self).clip == (Rect {
                x: 0,
                y: 0,
                width: old(self).max_width,
                height: old(self).max_height,
            }),
            final(self).max_width == old(self).max_width,
            final(self).max_height == old(self).max_height,
            final(self).current_line_index == 0,
            final(self).push_count == 0,
            final(self).push_capacity == old(self).max_width * old(self).max_height,
            final(self).first_offset is None,
            final(self).last_offset is None,
            final(self).doc_max_offset == 0,
            !final(self).is_off_screen,
            !final(self).has_eof,
            forall|i: int|
                0 <= i < old(self).max_height ==> (#[trigger] final(self).line@[i]).nb_cells == 0
                    && !final(self).line@[i].read_only,
            forall|i: int, j: int|
                0 <= i < old(self).max_height && 0 <= j < old(self).max_width ==> #[trigger] final(self).line@[i].cells@[j] == if old(self).line@[i].start_index <= j < old(self).line@[i].clip_end() {
                    line::LineCell::spec_new()
                } else {
                    old(self).line@[i].cells@[j]
                },
    {
        let mut h: usize = 0;
        while h < self.max_height
            invariant
                h <= self.max_height,
                self.max_height == old(self).max_height,
                self.max_width == old(self).max_width,
                self.line@.len() == self.max_height,
                forall|k: int|
                    0 <= k < self.max_height ==> (#[trigger] self.line@[k]).wf()
                        && self.line@[k].max_width == self.max_width,
                forall|k: int|
                    h <= k < self.max_height ==> #[trigger] self.line@[k] == old(self).line@[k],
                forall|k: int|
                    0 <= k < h ==> (#[trigger] self.line@[k]).nb_cells == 0 && !self.line@[k].read_only,
                forall|k: int, j: int|
                    0 <= k < h && 0 <= j < self.max_width ==> #[trigger] self.line@[k].cells@[j]
                        == if old(self).line@[k].start_index <= j < old(self).line@[k].clip_end() {
                        line::LineCell::spec_new()
                    } else {
                        old(self).line@[k].cells@[j]
                    },
            decreases self.max_height - h,
        {
            let ghost pre = self.line@;
            self.line[h].clear();
            proof {
                assert forall|k: int| 0 <= k < self.max_height && k != h implies self.line@[k]
                    == pre[k] by {}
            }
            h = h + 1;
        }
        self.is_off_screen = false;
        self.has_eof = false;
        self.current_line_index = 0;
        self.push_count = 0;
        self.push_capacity = self.max_width * self.max_height;
        self.first_offset = None;
        self.last_offset = None;
        self.doc_max_offset = 0;
        let w = self.max_width;
        let hh = self.max_height;
        self.set_clipping(0, 0, w, hh);
    }
}

/// The cell records `offset`, or covers it with its size.
pub open spec fn cpi_covers(c: CodepointInfo, offset: u64) -> bool {
    match c.offset {
        Some(o) => o == offset || (o < offset && offset < o + c.size),
        None => false,
    }
}

/// The offset recorded in a cell, as an integer (0 when there is none).
pub open spec fn cell_offset(c: CodepointInfo) -> int {
    match c.offset {
        Some(o) => o as int,
        None => 0,
    }
}

impl Screen {
    /// Offset of the first cell of line `i` of the clipping rectangle.
    pub open spec fn line_first_offset(self, i: int) -> int {
        cell_offset(self.cell_xy(0, i).cpi)
    }

    /// Offset of the last used cell of line `i` of the clipping rectangle.
    pub open spec fn line_last_offset(self, i: int) -> int {
        cell_offset(self.cell_xy(self.line@[self.row(i)].nb_cells - 1, i).cpi)
    }

    /// The lines up to the fill cursor are used, their first and last cells
    /// carry offsets, and their offset ranges follow each other.
    pub open spec fn lines_sorted(self) -> bool {
        &&& self.current_line_index < self.spec_height()
        &&& forall|i: int|
            0 <= i <= self.current_line_index ==> {
                &&& #[trigger] self.line@[self.row(i)].nb_cells > 0
                &&& self.cell_xy(0, i).cpi.offset is Some
                &&& self.cell_xy(self.line@[self.row(i)].nb_cells - 1, i).cpi.offset is Some
                &&& self.line_first_offset(i) <= self.line_last_offset(i)
            }
        &&& forall|i: int, j: int|
            0 <= i < j <= self.current_line_index ==> #[trigger] self.line_last_offset(i)
                < #[trigger] self.line_first_offset(j)
    }

    /// Line i holds `offset` in its offset range and one of its cells
    /// covers it.
    pub open spec fn line_holds_offset(self, i: int, offset: u64) -> bool {
        &&& 0 <= i <= self.current_line_index
        &&& self.line_first_offset(i) <= offset <= self.line_last_offset(i)
        &&& exists|x: int| 0 <= x < self.spec_width() && #[trigger] cpi_covers(self.cell_xy(x, i).cpi, offset)
    }

    /// Each offset between the first and the last recorded ones lies in a
    /// line, whose cells cover it, the lines following each other: a
    /// screen laid out from a document, where `contains_offset` finds any
    /// offset it is asked for.
    pub open spec fn covers_its_range(self) -> bool {
        forall|o: u64|
            #[trigger] self.offset_in_range(o) ==> self.lines_sorted() && exists|i: int|
                self.line_holds_offset(i, o)
    }

    /// First and last offsets are recorded and `offset` lies between them.
    pub open spec fn offset_in_range(self, offset: u64) -> bool {
        match (self.first_offset, self.last_offset) {
            (Some(f), Some(l)) => f <= offset <= l,
            _ => false,
        }
    }

    /// Finds the cell that covers `offset`, by a binary search over the
    /// lines followed by a scan of the line found.
    pub fn find_cpi_by_offset(&self, offset: u64) -> (r: (Option<&CodepointInfo>, usize, usize))
        requires
            self.wf(),
            self.offset_in_range(offset) ==> self.lines_sorted() && exists|i: int|
                self.line_holds_offset(i, offset),
        ensures
            !self.offset_in_range(offset) ==> r == (None::<&CodepointInfo>, 0usize, 0usize),
            self.offset_in_range(offset) ==> {
                &&& r.2 <= self.current_line_index
                &&& self.line_first_offset(r.2 as int) <= offset <= self.line_last_offset(r.2 as int)
                &&& r.1 < self.spec_width()
                &&& cpi_covers(self.cell_xy(r.1 as int, r.2 as int).cpi, offset)
                &&& forall|x: int| 0 <= x < r.1 ==> !cpi_covers(#[trigger] self.cell_xy(x, r.2 as int).cpi, offset)
                &&& r.0 == Some(&self.cell_xy(r.1 as int, r.2 as int).cpi)
            },
    {
        if self.first_offset.is_none() || self.last_offset.is_none() {
            return (None, 0, 0);
        }
        let first_offset = self.first_offset.unwrap();
        let last_offset = self.last_offset.unwrap();
        if offset < first_offset || offset > last_offset {
            return (None, 0, 0);
        }
        let ghost t = choose|i: int| self.line_holds_offset(i, offset);
        let mut max = self.current_line_index;
        let mut min: usize = 0;
        loop
            invariant
                self.wf(),
                self.lines_sorted(),
                self.line_holds_offset(t, offset),
                self.offset_in_range(offset),
                min <= t <= max,
                max <= self.current_line_index,
            decreases max - min,
        {
            let idx = min + (max - min) / 2;
            let l = self.get_line(idx).unwrap();
            let f_cpi = l.get_first_cpi().unwrap();
            let l_cpi = l.get_last_cpi().unwrap();
            let first_offset = f_cpi.offset.unwrap();
            let last_offset = l_cpi.offset.unwrap();
            if offset >= first_offset && offset <= last_offset {
                proof {
                    if idx < t {
                        assert(self.line_last_offset(idx as int) < self.line_first_offset(t));
                    } else if idx > t {
                        assert(self.line_last_offset(t) < self.line_first_offset(idx as int));
                    }
                }
                let w = l.width();
                let mut x: usize = 0;
                while x < w
                    invariant
                        self.wf(),
                        idx == t,
                        0 <= idx <= self.current_line_index,
                        idx < self.spec_height(),
                        *l == self.line@[self.row(idx as int)],
                        w == l.spec_width(),
                        w == self.spec_width(),
                        x <= w,
                        self.line_holds_offset(t, offset),
                        self.offset_in_range(offset),
                        forall|k: int| 0 <= k < x ==> !cpi_covers(#[trigger] self.cell_xy(k, idx as int).cpi, offset),
                    decreases w - x,
                {
                    let cpi = l.get_cpi(x).unwrap();
                    if let Some(cpi_offset) = cpi.offset {
                        if offset == cpi_offset {
                            return (Some(cpi), x, idx);
                        }
                        if cpi_offset < offset && (offset - cpi_offset) < cpi.size as u64 {
                            return (Some(cpi), x, idx);
                        }
                    }
                    proof {
                        assert(!cpi_covers(self.cell_xy(x as int, idx as int).cpi, offset));
                    }
                    x = x + 1;
                }
                proof {
                    let k = choose|k: int| 0 <= k < self.spec_width() && #[trigger] cpi_covers(self.cell_xy(k, t).cpi, offset);
                    assert(!cpi_covers(self.cell_xy(k, t).cpi, offset));
                }
                return (None, 0, 0);
            } else if offset > last_offset {
                proof {
                    if t < idx {
                        assert(self.line_last_offset(t) < self.line_first_offset(idx as int));
                    }
                }
                min = idx + 1;
            } else {
                proof {
                    if t > idx {
                        assert(self.line_last_offset(idx as int) < self.line_first_offset(t));
                    }
                }
                max = idx - 1;
            }
        }
    }

    pub fn contains_offset(&self, offset: u64) -> (b: bool)
        requires
            self.wf(),
            self.offset_in_range(offset) ==> self.lines_sorted() && exists|i: int|
                self.line_holds_offset(i, offset),
        ensures
            b == self.offset_in_range(offset),
    {
        if self.first_offset.is_none() || self.last_offset.is_none() {
            return false;
        }
        let first_offset = self.first_offset.unwrap();
        let last_offset = self.last_offset.unwrap();
        if offset < first_offset || offset > last_offset {
            return false;
        }
        let (cpi, _, _) = self.find_cpi_by_offset(offset);
        match cpi {
            Some(_) => true,
            _ => false,
        }
    }
}

/// How many cells of a line a pass visits: its used cells, or all the
/// cells of its clipping window.
pub open spec fn visited_len(line: Line, all: bool) -> int {
    if all {
        line.spec_width()
    } else {
        line.nb_cells as int
    }
}

/// Column `c` of line `l` comes before the column `p.1` of line `p.0`.
pub open spec fn comes_before(l: int, c: int, p: (int, int)) -> bool {
    l < p.0 || (l == p.0 && c < p.1)
}

/// `s` is `o` once a pass over its lines, line after line, reached column
/// `front.1` of line `front.0`: each cell visited before it became what
/// `rel` allows of a call that returned true, the cell `stop`, when there
/// is one, what `rel` allows of a call that returned false, and the other
/// cells are as they were.
pub open spec fn applied_until(
    o: Screen,
    s: Screen,
    rel: spec_fn(usize, usize, line::LineCell, line::LineCell, bool) -> bool,
    all: bool,
    front: (int, int),
    stop: Option<(int, int)>,
) -> bool {
    &&& s.wf()
    &&& s.same_but_lines(o)
    &&& forall|r: int|
        0 <= r < o.max_height ==> (#[trigger] s.line@[r]).same_layout(o.line@[r])
            && s.line@[r].cells@.len() == o.line@[r].cells@.len()
    &&& forall|r: int, k: int|
        0 <= r < o.max_height && 0 <= k < o.line@[r].cells@.len() ==> {
            let l = r - o.clip.y;
            let c = k - o.line@[r].start_index;
            let before = o.line@[r].cells@[k];
            let after = #[trigger] s.line@[r].cells@[k];
            if o.clip.y <= r < o.clip.height && 0 <= c < visited_len(o.line@[r], all) {
                if comes_before(l, c, front) {
                    rel(c as usize, l as usize, before, after, true)
                } else if stop == Some((l, c)) {
                    rel(c as usize, l as usize, before, after, false)
                } else {
                    after == before
                }
            } else {
                after == before
            }
        }
}

/// The whole pass over the screen `o` gave `s` (see `applied_until`): it
/// visited every cell, or stopped at the cell `stop` whose call returned
/// false.
pub open spec fn applied_all_or_stopped(
    o: Screen,
    s: Screen,
    rel: spec_fn(usize, usize, line::LineCell, line::LineCell, bool) -> bool,
    all: bool,
    stop: Option<(int, int)>,
) -> bool {
    match stop {
        None => applied_until(o, s, rel, all, (o.spec_height(), 0), None),
        Some(p) => {
            &&& 0 <= p.0 < o.spec_height()
            &&& 0 <= p.1 < visited_len(o.line@[o.row(p.0)], all)
            &&& applied_until(o, s, rel, all, p, stop)
        },
    }
}

/// Calls `on_cpi` on the cells of the clipping rectangle that a pass
/// visits (see `visited_len`), line after line, until it returns false.
fn apply_on_cells<F: FnMut(usize, usize, &mut CodepointInfo) -> bool>(screen: &mut Screen, mut on_cpi: F, all: bool)
    requires
        old(screen).wf(),
        forall|f: F, c: usize, l: usize, cpi: &mut CodepointInfo| call_requires(f, (c, l, cpi)),
    ensures
        ({
            let rel = (|c: usize, l: usize, b: line::LineCell, a: line::LineCell, ret: bool|
            a.is_used == b.is_used && exists|m: &mut CodepointInfo|
                #![trigger call_ensures(on_cpi, (c, l, m), ret)]
                mut_ref_current(m) == b.cpi && mut_ref_future(m) == a.cpi && call_ensures(on_cpi, (c, l, m), ret));
            exists|stop: Option<(int, int)>|
                #[trigger] applied_all_or_stopped(*old(screen), *final(screen), rel, all, stop)
        }),
{
    let ghost o = *screen;
    let ghost f0 = on_cpi;
    let ghost rel = (|c: usize, l: usize, b: line::LineCell, a: line::LineCell, ret: bool|
            a.is_used == b.is_used && exists|m: &mut CodepointInfo|
                #![trigger call_ensures(f0, (c, l, m), ret)]
                mut_ref_current(m) == b.cpi && mut_ref_future(m) == a.cpi && call_ensures(f0, (c, l, m), ret));
    let h = screen.height();
    let mut l: usize = 0;
    let mut done = false;
    let ghost mut stopped_at: (int, int) = (0, 0);
    while l < h && !done
        invariant
            o == *old(screen),
            o.wf(),
            on_cpi == f0,
            rel == (|c: usize, l: usize, b: line::LineCell, a: line::LineCell, ret: bool|
                a.is_used == b.is_used && exists|m: &mut CodepointInfo|
                    #![trigger call_ensures(f0, (c, l, m), ret)]
                    mut_ref_current(m) == b.cpi && mut_ref_future(m) == a.cpi && call_ensures(f0, (c, l, m), ret)),
            h == o.spec_height(),
            0 <= l <= h,
            !done ==> applied_until(o, *screen, rel, all, (l as int, 0), None),
            done ==> applied_all_or_stopped(o, *screen, rel, all, Some(stopped_at)),
            forall|f: F, c: usize, l: usize, cpi: &mut CodepointInfo| call_requires(f, (c, l, cpi)),
        decreases h - l + if done {
            0int
        } else {
            1int
        },
    {
        let ghost s0 = *screen;
        let ghost row = o.row(l as int);
        let mut stop = false;
        let ghost mut stop_at: int = 0;
        if let Some(line) = screen.get_line_mut(l) {
            let ghost line0 = *line;
            let n = if all {
                line.width()
            } else {
                line.nb_cells
            };
            let mut c: usize = 0;
            while c < n && !stop
                invariant
                    line0 == s0.line@[row],
                    line0.wf(),
                    line.wf(),
                    line.same_layout(line0),
                    line.cells@.len() == line0.cells@.len(),
                    n == visited_len(line0, all),
                    n <= line0.spec_width(),
                    0 <= c <= n,
                    on_cpi == f0,
                    rel == (|c: usize, l: usize, b: line::LineCell, a: line::LineCell, ret: bool|
                a.is_used == b.is_used && exists|m: &mut CodepointInfo|
                    #![trigger call_ensures(f0, (c, l, m), ret)]
                    mut_ref_current(m) == b.cpi && mut_ref_future(m) == a.cpi && call_ensures(f0, (c, l, m), ret)),
                    stop ==> 0 <= stop_at < c,
                    forall|f: F, c: usize, l: usize, cpi: &mut CodepointInfo| call_requires(f, (c, l, cpi)),
                    forall|k: int|
                        0 <= k < line0.cells@.len() ==> {
                            let cc = k - line0.start_index;
                            let before = line0.cells@[k];
                            let after = #[trigger] line.cells@[k];
                            if 0 <= cc < c {
                                if stop && cc == stop_at {
                                    rel(cc as usize, l, before, after, false)
                                } else {
                                    rel(cc as usize, l, before, after, true)
                                }
                            } else {
                                after == before
                            }
                        },
                    stop ==> stop_at == c - 1,
                decreases n - c,
            {
                let ghost line1 = *line;
                if let Some(cpi) = line.get_mut_cpi(c) {
                    let ret = on_cpi(c, l, cpi);
                    proof {
                        assert(exists|m: &mut CodepointInfo|
                            mut_ref_current(m) == line1.cells@[line0.start_index + c].cpi && mut_ref_future(m)
                                == line.cells@[line0.start_index + c].cpi && call_ensures(f0, (c, l, m), ret));
                        assert(line.cells@[line0.start_index + c].is_used == line1.cells@[line0.start_index
                            + c].is_used);
                        assert(rel(
                            c,
                            l,
                            line1.cells@[line0.start_index + c],
                            line.cells@[line0.start_index + c],
                            ret,
                        ));
                    }
                    if ret == false {
                        stop = true;
                        proof {
                            stop_at = c as int;
                        }
                    }
                }
                c = c + 1;
            }
        }
        proof {
            let stop_opt: Option<(int, int)> = if stop {
                Some((l as int, stop_at))
            } else {
                None
            };
            let front: (int, int) = if stop {
                (l as int, stop_at)
            } else {
                (l as int + 1, 0)
            };
            assert forall|r: int, k: int|
                0 <= r < o.max_height && 0 <= k < o.line@[r].cells@.len() implies {
                    let ll = r - o.clip.y;
                    let c = k - o.line@[r].start_index;
                    let before = o.line@[r].cells@[k];
                    let after = #[trigger] screen.line@[r].cells@[k];
                    if o.clip.y <= r < o.clip.height && 0 <= c < visited_len(o.line@[r], all) {
                        if comes_before(ll, c, front) {
                            rel(c as usize, ll as usize, before, after, true)
                        } else if stop_opt == Some((ll, c)) {
                            rel(c as usize, ll as usize, before, after, false)
                        } else {
                            after == before
                        }
                    } else {
                        after == before
                    }
                } by {
                if r != row {
                    assert(screen.line@[r] == s0.line@[r]);
                }
            }
            assert(applied_until(o, *screen, rel, all, front, stop_opt));
        }
        if stop {
            assert(applied_all_or_stopped(o, *screen, rel, all, Some((l as int, stop_at))));
            done = true;
            proof {
                stopped_at = (l as int, stop_at);
            }
        } else {
            l = l + 1;
        }
    }
    assert(rel == (|c: usize, l: usize, b: line::LineCell, a: line::LineCell, ret: bool|
            a.is_used == b.is_used && exists|m: &mut CodepointInfo|
                #![trigger call_ensures(on_cpi, (c, l, m), ret)]
                mut_ref_current(m) == b.cpi && mut_ref_future(m) == a.cpi && call_ensures(on_cpi, (c, l, m), ret)));
    if done {
        assert(applied_all_or_stopped(o, *screen, rel, all, Some(stopped_at)));
    } else {
        assert(applied_all_or_stopped(o, *screen, rel, all, None));
    }
}

/// Calls `on_cpi` on the used cells of the clipping rectangle, line after
/// line, until it returns false: each cell visited keeps its use, and its
/// code point information becomes what a call of `on_cpi` on it made of
/// it (see `applied_all_or_stopped`); the other cells are left.
pub fn screen_apply<F: FnMut(usize, usize, &mut CodepointInfo) -> bool>(
    screen: &mut Screen,
    mut on_cpi: F,
)
    requires
        old(screen).wf(),
        forall|f: F, c: usize, l: usize, cpi: &mut CodepointInfo| call_requires(f, (c, l, cpi)),
    ensures
        ({
            let rel = (|c: usize, l: usize, b: line::LineCell, a: line::LineCell, ret: bool|
            a.is_used == b.is_used && exists|m: &mut CodepointInfo|
                #![trigger call_ensures(on_cpi, (c, l, m), ret)]
                mut_ref_current(m) == b.cpi && mut_ref_future(m) == a.cpi && call_ensures(on_cpi, (c, l, m), ret));
            exists|stop: Option<(int, int)>|
                #[trigger] applied_all_or_stopped(*old(screen), *final(screen), rel, false, stop)
        }),
{
    apply_on_cells(screen, on_cpi, false);
}

/// Calls `on_cpi` on all the cells of the clipping rectangle, line after
/// line, until it returns false: each cell visited keeps its use, and its
/// code point information becomes what a call of `on_cpi` on it made of
/// it (see `applied_all_or_stopped`); the other cells are left.
pub fn screen_apply_all<F: FnMut(usize, usize, &mut CodepointInfo) -> bool>(
    screen: &mut Screen,
    mut on_cpi: F,
)
    requires
        old(screen).wf(),
        forall|f: F, c: usize, l: usize, cpi: &mut CodepointInfo| call_requires(f, (c, l, cpi)),
    ensures
        ({
            let rel = (|c: usize, l: usize, b: line::LineCell, a: line::LineCell, ret: bool|
            a.is_used == b.is_used && exists|m: &mut CodepointInfo|
                #![trigger call_ensures(on_cpi, (c, l, m), ret)]
                mut_ref_current(m) == b.cpi && mut_ref_future(m) == a.cpi && call_ensures(on_cpi, (c, l, m), ret));
            exists|stop: Option<(int, int)>|
                #[trigger] applied_all_or_stopped(*old(screen), *final(screen), rel, true, stop)
        }),
{
    apply_on_cells(screen, on_cpi, true);
}

} // verus!
