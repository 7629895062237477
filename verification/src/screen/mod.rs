//! The screen: a stack of lines that the layout fills cell after cell, with a
//! clipping rectangle that selects the part being drawn.
//!
//! This module holds the screen whose document offsets are plain `u64`
//! counters; `screen::screen` holds the screen used by the text layout,
//! whose offsets are optional and whose cells can be wider than one column.

pub mod line;
pub mod screen;

use std::time::Duration;

use vstd::prelude::*;

use self::line::Line;
use self::line::LineCellIndex;
use crate::codepointinfo::CodepointInfo;

verus! {

pub type LineIndex = usize;

#[derive(Debug, Clone, Copy, PartialEq, Eq)]
pub struct Rect {
    pub x: usize,
    pub y: usize,
    pub width: usize,
    pub height: usize,
}

/// `std::time::Duration::new`: a zero duration (nothing is stated of the
/// opaque value).
#[verifier::external_body]
fn zero_duration() -> Duration {
    Duration::new(0, 0)
}

/// A Screen is composed of Line(s).
#[derive(Debug)]
pub struct Screen {
    pub is_off_screen: bool,
    /// the underlying lines storage
    pub line: Vec<Line>,
    /// the index of the line filled with the push method
    pub current_line_index: LineIndex,
    /// the clipping rectangle: x, y and the exclusive ends `width`, `height`
    pub clip: Rect,
    /// maximum number of elements the screen line can hold
    pub max_width: usize,
    /// maximum number of lines the screen can hold
    pub max_height: usize,
    /// the number of elements pushed in the screen
    pub push_count: usize,
    /// the maximum number of elements the screen can hold
    pub push_capacity: usize,
    /// offset of the first pushed CodepointInfo (used by View)
    pub first_offset: u64,
    /// offset of the last pushed CodepointInfo that has one (used by View)
    pub last_offset: u64,
    /// maximum offset of the document (eof)
    pub doc_max_offset: u64,
    /// time spent to generate the screen content
    pub time_to_build: Duration,
    pub input_size: usize,
}

/// Cell `j` of `l` once `l` was resized to more than `j` columns.
pub open spec fn resized_cell(l: Line, j: int) -> line::LineCell {
    if j < l.cells@.len() {
        l.cells@[j]
    } else {
        line::LineCell::spec_new()
    }
}

/// Is `c` an end-of-line code point?
pub open spec fn is_eol(c: char) -> bool {
    c == '\n' || c == '\r'
}

impl Screen {
    pub open spec fn spec_width(self) -> int {
        self.clip.width - self.clip.x
    }

    pub open spec fn spec_height(self) -> int {
        self.clip.height - self.clip.y
    }

    /// Index in `line` of the line `index` of the clipping rectangle.
    pub open spec fn row(self, index: int) -> int {
        self.clip.y + index
    }

    /// The screen is consistent: `max_height` lines of `max_width` cells,
    /// the clipping rectangle lies within them, the lines it covers are
    /// clipped to its columns and the fill cursor is within it.
    pub open spec fn wf(self) -> bool {
        &&& self.line@.len() == self.max_height
        &&& self.clip.x <= self.clip.width <= self.max_width
        &&& self.clip.y <= self.clip.height <= self.max_height
        &&& self.current_line_index <= self.spec_height()
        &&& forall|i: int|
            0 <= i < self.max_height ==> (#[trigger] self.line@[i]).wf() && self.line@[i].max_width
                == self.max_width
        &&& forall|i: int|
            self.clip.y <= i < self.clip.height ==> (#[trigger] self.line@[i]).start_index
                == self.clip.x && self.line@[i].clip_end() == self.clip.width
    }

    /// Every line is a fresh line of `width` cells and nothing was pushed.
    pub open spec fn is_empty_screen(self, width: usize, height: usize) -> bool {
        &&& self.wf()
        &&& self.max_width == width
        &&& self.max_height == height
        &&& self.clip == Rect { x: 0, y: 0, width, height }
        &&& self.current_line_index == 0
        &&& self.push_count == 0
        &&& forall|i: int| 0 <= i < height ==> (#[trigger] self.line@[i]).is_fresh(width)
    }

    pub fn new(width: usize, height: usize) -> (s: Screen)
        requires
            width > 0,
            height > 0,
            width * height <= usize::MAX,
        ensures
            s.is_empty_screen(width, height),
            s.push_capacity == width * height,
            !s.is_off_screen,
            s.first_offset == 0,
            s.last_offset == 0,
            s.doc_max_offset == 0,
            s.input_size == 0,
            forall|i: int, j: int|
                0 <= i < height && 0 <= j < width ==> #[trigger] s.line@[i].cells@[j]
                    == line::LineCell::spec_new(),
    {
        let mut line: Vec<Line> = Vec::new();
        let mut i: usize = 0;
        while i < height
            invariant
                i <= height,
                line@.len() == i,
                forall|k: int| 0 <= k < i ==> (#[trigger] line@[k]).is_fresh(width),
                forall|k: int, j: int|
                    0 <= k < i && 0 <= j < width ==> #[trigger] line@[k].cells@[j]
                        == line::LineCell::spec_new(),
            decreases height - i,
        {
            line.push(Line::new(width));
            i = i + 1;
        }

        let push_capacity = width * height;
        Screen {
            is_off_screen: false,
            line,
            current_line_index: 0,
            clip: Rect { x: 0, y: 0, width, height },
            max_width: width,
            max_height: height,
            push_count: 0,
            push_capacity,
            first_offset: 0,
            last_offset: 0,
            doc_max_offset: 0,
            time_to_build: zero_duration(),
            input_size: 0,
        }
    }

    /// Consistency checks are not run on this screen.
    pub fn check_invariants(&self) {
    }

    /// Copies the clipped content of `src` into this screen, at (x, y) of the
    /// clipping rectangle; refused when `src` does not fit.
    pub fn copy_to(&mut self, x: usize, y: usize, src: &Screen) -> (ok: bool)
        requires
            old(self).wf(),
            src.wf(),
        ensures
            ok == (x + src.spec_width() <= old(self).spec_width() && y + src.spec_height()
                <= old(self).spec_height()),
            !ok ==> *final(self) == *old(self),
            ok ==> final(self).wf(),
            ok ==> final(self).same_but_lines(*old(self)),
            ok ==> forall|r: int, c: int|
                0 <= r < old(self).max_height && 0 <= c < old(self).max_width ==> {
                    let sy = r - old(self).clip.y - y;
                    let sx = c - old(self).clip.x - x;
                    #[trigger] final(self).line@[r].cells@[c] == if 0 <= sy < src.spec_height() && 0
                        <= sx < src.spec_width() {
                        line::LineCell {
                            cpi: src.line@[src.row(sy)].cell_at(sx).cpi,
                            is_used: old(self).line@[r].cells@[c].is_used,
                        }
                    } else {
                        old(self).line@[r].cells@[c]
                    }
                },
    {
        let sw = src.width();
        let sh = src.height();
        if sw > self.width() || x > self.width() - sw || sh > self.height() || y > self.height()
            - sh {
            return false;
        }
        let ghost orig = *self;
        let mut src_y: usize = 0;
        while src_y < sh
            invariant
                0 <= src_y <= sh,
                sw == src.spec_width(),
                sh == src.spec_height(),
                src.wf(),
                x + sw <= orig.spec_width(),
                y + sh <= orig.spec_height(),
                orig.wf(),
                self.wf(),
                self.same_but_lines(orig),
                forall|r: int, c: int|
                    0 <= r < orig.max_height && 0 <= c < orig.max_width ==> {
                        let sy = r - orig.clip.y - y;
                        let sx = c - orig.clip.x - x;
                        #[trigger] self.line@[r].cells@[c] == if 0 <= sy < src_y && 0 <= sx
                            < sw {
                            line::LineCell {
                                cpi: src.line@[src.row(sy)].cell_at(sx).cpi,
                                is_used: orig.line@[r].cells@[c].is_used,
                            }
                        } else {
                            orig.line@[r].cells@[c]
                        }
                    },
            decreases sh - src_y,
        {
            let mut src_x: usize = 0;
            while src_x < sw
                invariant
                    0 <= src_y < sh,
                    0 <= src_x <= sw,
                    sw == src.spec_width(),
                    sh == src.spec_height(),
                    src.wf(),
                    x + sw <= orig.spec_width(),
                    y + sh <= orig.spec_height(),
                    orig.wf(),
                    self.wf(),
                    self.same_but_lines(orig),
                    forall|r: int, c: int|
                        0 <= r < orig.max_height && 0 <= c < orig.max_width ==> {
                            let sy = r - orig.clip.y - y;
                            let sx = c - orig.clip.x - x;
                            #[trigger] self.line@[r].cells@[c] == if (0 <= sy < src_y && 0 <= sx
                                < sw) || (sy == src_y && 0 <= sx < src_x) {
                                line::LineCell {
                                    cpi: src.line@[src.row(sy)].cell_at(sx).cpi,
                                    is_used: orig.line@[r].cells@[c].is_used,
                                }
                            } else {
                                orig.line@[r].cells@[c]
                            }
                        },
                decreases sw - src_x,
            {
                if let Some(cpi_src) = src.get_cpinfo(src_x, src_y) {
                    let v = *cpi_src;
                    let ghost pre = *self;
                    if let Some(cpi_dst) = self.get_mut_cpinfo(x + src_x, y + src_y) {
                        *cpi_dst = v;
                    }
                    proof {
                        let r = self.row((y + src_y) as int);
                        assert(self.line@ =~= pre.line@.update(r, self.line@[r]));
                        assert forall|i: int|
                            0 <= i < self.max_height implies (#[trigger] self.line@[i]).wf()
                            && self.line@[i].max_width == self.max_width by {
                            if i != r {
                                assert(self.line@[i] == pre.line@[i]);
                            }
                        }
                    }
                }
                src_x = src_x + 1;
            }
            src_y = src_y + 1;
        }
        true
    }

    /// All the fields but the lines are those of `other`.
    pub open spec fn same_but_lines(self, other: Screen) -> bool {
        &&& self.line@.len() == other.line@.len()
        &&& self.is_off_screen == other.is_off_screen
        &&& self.current_line_index == other.current_line_index
        &&& self.clip == other.clip
        &&& self.max_width == other.max_width
        &&& self.max_height == other.max_height
        &&& self.push_count == other.push_count
        &&& self.push_capacity == other.push_capacity
        &&& self.first_offset == other.first_offset
        &&& self.last_offset == other.last_offset
        &&& self.doc_max_offset == other.doc_max_offset
        &&& self.time_to_build == other.time_to_build
        &&& self.input_size == other.input_size
    }

    pub fn clip_rect(&self) -> (r: Rect)
        ensures
            r == self.clip,
    {
        self.clip
    }

    pub fn width(&self) -> (w: usize)
        requires
            self.clip.x <= self.clip.width,
        ensures
            w == self.spec_width(),
    {
        self.clip.width - self.clip.x
    }

    pub fn height(&self) -> (h: usize)
        requires
            self.clip.y <= self.clip.height,
        ensures
            h == self.spec_height(),
    {
        self.clip.height - self.clip.y
    }
}

impl Screen {
    pub fn max_width(&self) -> (w: usize)
        ensures
            w == self.max_width,
    {
        self.max_width
    }

    pub fn max_height(&self) -> (h: usize)
        ensures
            h == self.max_height,
    {
        self.max_height
    }

    pub fn get_mut_unclipped_line(&mut self, index: usize) -> (r: Option<&mut Line>)
        requires
            old(self).line@.len() == old(self).max_height,
        ensures
            index < old(self).max_height ==> (r matches Some(l) && *l == old(self).line@[index as int]
                && final(self).line@ == old(self).line@.update(index as int, *final(l))
                && final(self).same_but_lines(*old(self))),
            index >= old(self).max_height ==> r is None && *final(self) == *old(self),
    {
        if index < self.max_height {
            Some(&mut self.line[index])
        } else {
            None
        }
    }

    pub fn get_mut_line(&mut self, index: usize) -> (r: Option<&mut Line>)
        requires
            old(self).wf(),
        ensures
            index < old(self).spec_height() ==> (r matches Some(l) && *l == old(self).line@[old(
                self,
            ).row(index as int)] && final(self).line@ == old(self).line@.update(
                old(self).row(index as int),
                *final(l),
            ) && final(self).same_but_lines(*old(self))),
            index >= old(self).spec_height() ==> r is None && *final(self) == *old(self),
    {
        if index < self.height() {
            let i = self.clip.y + index;
            Some(&mut self.line[i])
        } else {
            None
        }
    }

    pub fn get_unclipped_line(&self, index: usize) -> (r: Option<&Line>)
        requires
            self.line@.len() == self.max_height,
        ensures
            index < self.max_height ==> r == Some(&self.line@[index as int]),
            index >= self.max_height ==> r is None,
    {
        if index < self.max_height {
            Some(&self.line[index])
        } else {
            None
        }
    }

    pub fn get_line(&self, index: usize) -> (r: Option<&Line>)
        requires
            self.wf(),
        ensures
            index < self.spec_height() ==> r == Some(&self.line@[self.row(index as int)]),
            index >= self.spec_height() ==> r is None,
    {
        if index < self.height() {
            Some(&self.line[self.clip.y + index])
        } else {
            None
        }
    }

    /// A line is in use when it is not past the fill cursor and holds cells.
    pub open spec fn line_is_used(self, index: int) -> bool {
        index <= self.current_line_index && self.line@[self.row(index)].nb_cells > 0
    }

    pub fn get_mut_used_line(&mut self, index: usize) -> (r: Option<&mut Line>)
        requires
            old(self).wf(),
            index <= old(self).current_line_index ==> old(self).row(index as int) < old(
                self,
            ).max_height,
        ensures
            old(self).line_is_used(index as int) ==> (r matches Some(l) && *l == old(self).line@[old(
                self,
            ).row(index as int)] && final(self).line@ == old(self).line@.update(
                old(self).row(index as int),
                *final(l),
            ) && final(self).same_but_lines(*old(self))),
            !old(self).line_is_used(index as int) ==> r is None && *final(self) == *old(self),
    {
        if index <= self.current_line_index && self.line[self.clip.y + index].nb_cells > 0 {
            let i = self.clip.y + index;
            Some(&mut self.line[i])
        } else {
            None
        }
    }

    /// The used line at `index`, `index` being brought back to the fill
    /// cursor when it is past it.
    pub fn get_used_line_clipped(&mut self, index: usize) -> (r: (Option<&Line>, LineIndex))
        requires
            old(self).wf(),
        ensures
            *final(self) == *old(self),
            r.1 == if index < old(self).current_line_index {
                index
            } else {
                old(self).current_line_index
            },
            r.1 < old(self).spec_height() && old(self).line_is_used(r.1 as int) ==> r.0 == Some(
                &old(self).line@[old(self).row(r.1 as int)],
            ),
            !(r.1 < old(self).spec_height() && old(self).line_is_used(r.1 as int)) ==> r.0 is None,
    {
        let index = if index < self.current_line_index {
            index
        } else {
            self.current_line_index
        };
        (self.get_used_line(index), index)
    }

    // improve this: loop over line push_count > 0
    pub fn get_used_line(&self, index: usize) -> (r: Option<&Line>)
        requires
            self.wf(),
        ensures
            index < self.spec_height() && self.line_is_used(index as int) ==> r == Some(
                &self.line@[self.row(index as int)],
            ),
            !(index < self.spec_height() && self.line_is_used(index as int)) ==> r is None,
    {
        if index >= self.height() {
            return None;
        }
        if index <= self.current_line_index && self.line[self.clip.y + index].nb_cells > 0 {
            Some(&self.line[self.clip.y + index])
        } else {
            None
        }
    }

    pub fn get_first_used_line(&self) -> (r: Option<&Line>)
        requires
            self.wf(),
            self.push_count > 0 ==> self.clip.y < self.max_height,
        ensures
            self.push_count == 0 ==> r is None,
            self.push_count > 0 ==> r == Some(&self.line@[self.clip.y as int]),
    {
        if self.push_count() == 0 {
            None
        } else {
            Some(&self.line[self.clip.y])
        }
    }

    pub fn get_last_used_line(&self) -> (r: Option<&Line>)
        requires
            self.wf(),
            self.push_count > 0 ==> self.spec_height() > 0,
        ensures
            self.push_count == 0 ==> r is None,
            self.push_count > 0 ==> r == Some(
                &self.line@[self.row(self.spec_last_used_line_index() as int)],
            ),
    {
        if self.push_count() == 0 {
            return None;
        }
        if self.current_line_index == self.height() {
            Some(&self.line[self.clip.y + self.current_line_index - 1])
        } else {
            Some(&self.line[self.clip.y + self.current_line_index])
        }
    }

    pub open spec fn spec_last_used_line_index(self) -> int {
        if self.current_line_index == self.spec_height() {
            self.current_line_index - 1
        } else {
            self.current_line_index as int
        }
    }

    pub fn get_last_used_line_index(&self) -> (i: LineIndex)
        requires
            self.wf(),
            self.current_line_index == self.spec_height() ==> self.current_line_index > 0,
        ensures
            i == self.spec_last_used_line_index(),
    {
        if self.current_line_index == self.height() {
            self.current_line_index - 1
        } else {
            self.current_line_index
        }
    }

    /// The cell at column x, line y of the clipping rectangle.
    pub open spec fn cell_xy(self, x: int, y: int) -> line::LineCell {
        self.line@[self.row(y)].cell_at(x)
    }

    pub fn get_cpinfo(&self, x: usize, y: usize) -> (r: Option<&CodepointInfo>)
        requires
            self.wf(),
        ensures
            x < self.spec_width() && y < self.spec_height() ==> r == Some(&self.cell_xy(x as int, y as int).cpi),
            !(x < self.spec_width() && y < self.spec_height()) ==> r is None,
    {
        match self.get_line(y) {
            None => None,
            Some(l) => l.get_cpi(x),
        }
    }

    pub fn get_mut_cpinfo(&mut self, x: usize, y: usize) -> (r: Option<&mut CodepointInfo>)
        requires
            old(self).wf(),
        ensures
            x < old(self).spec_width() && y < old(self).spec_height() ==> (r matches Some(c) && *c
                == old(self).cell_xy(x as int, y as int).cpi && final(self).same_but_lines(*old(self))
                && final(self).line@ == old(self).line@.update(
                old(self).row(y as int),
                final(self).line@[old(self).row(y as int)],
            ) && final(self).line@[old(self).row(y as int)].same_layout(
                old(self).line@[old(self).row(y as int)],
            ) && final(self).line@[old(self).row(y as int)].cells@ == old(self).line@[old(self).row(
                y as int,
            )].cells@.update(
                old(self).clip.x + x,
                line::LineCell { cpi: *final(c), is_used: old(self).cell_xy(x as int, y as int).is_used },
            )),
            !(x < old(self).spec_width() && y < old(self).spec_height()) ==> r is None
                && final(self).same_but_lines(*old(self)) && final(self).line@ == old(self).line@,
    {
        match self.get_mut_line(y) {
            None => None,
            Some(l) => l.get_mut_cpi(x),
        }
    }
}

impl Screen {
    pub fn set_clipping(&mut self, x: usize, y: usize, width: usize, height: usize)
        requires
            old(self).line@.len() == old(self).max_height,
            forall|i: int|
                0 <= i < old(self).max_height ==> (#[trigger] old(self).line@[i]).wf()
                    && old(self).line@[i].max_width == old(self).max_width,
            x < old(self).max_width,
            width <= old(self).max_width,
            x + width <= old(self).max_width,
            y < old(self).max_height,
            height <= old(self).max_height,
            y + height <= old(self).max_height,
        ensures
            final(self).wf(),
            final(self).clip == (Rect { x, y, width: (x + width) as usize, height: (y + height) as usize }),
            final(self).current_line_index == 0,
            final(self).line@.len() == old(self).line@.len(),
            forall|i: int|
                0 <= i < old(self).max_height ==> {
                    let l = #[trigger] final(self).line@[i];
                    let o = old(self).line@[i];
                    if y <= i < y + height {
                        &&& l.cells == o.cells
                        &&& l.nb_cells == 0
                        &&& !l.read_only
                        &&& l.hash_cache_value() == 0
                        &&& l.hash_unclipped_cache_value() == o.hash_unclipped_cache_value()
                    } else {
                        l == o
                    }
                },
            final(self).is_off_screen == old(self).is_off_screen,
            final(self).max_width == old(self).max_width,
            final(self).max_height == old(self).max_height,
            final(self).push_count == old(self).push_count,
            final(self).push_capacity == old(self).push_capacity,
            final(self).first_offset == old(self).first_offset,
            final(self).last_offset == old(self).last_offset,
            final(self).doc_max_offset == old(self).doc_max_offset,
            final(self).time_to_build == old(self).time_to_build,
            final(self).input_size == old(self).input_size,
    {
        let mut i: usize = y;
        while i < y + height
            invariant
                y <= i <= y + height,
                y + height <= self.max_height,
                x < self.max_width,
                x + width <= self.max_width,
                self.line@.len() == old(self).line@.len(),
                self.max_width == old(self).max_width,
                self.max_height == old(self).max_height,
                self.line@.len() == self.max_height,
                forall|k: int|
                    0 <= k < self.max_height ==> (#[trigger] self.line@[k]).wf()
                        && self.line@[k].max_width == self.max_width,
                forall|k: int|
                    0 <= k < old(self).max_height ==> {
                        let l = #[trigger] self.line@[k];
                        let o = old(self).line@[k];
                        if y <= k < i {
                            &&& l.cells == o.cells
                            &&& l.nb_cells == 0
                            &&& !l.read_only
                            &&& l.hash_cache_value() == 0
                            &&& l.hash_unclipped_cache_value() == o.hash_unclipped_cache_value()
                            &&& l.start_index == x
                            &&& l.clip_end() == x + width
                        } else {
                            l == o
                        }
                    },
                self.is_off_screen == old(self).is_off_screen,
                self.push_count == old(self).push_count,
                self.push_capacity == old(self).push_capacity,
                self.first_offset == old(self).first_offset,
                self.last_offset == old(self).last_offset,
                self.doc_max_offset == old(self).doc_max_offset,
                self.time_to_build == old(self).time_to_build,
                self.input_size == old(self).input_size,
            decreases y + height - i,
        {
            let ghost pre = self.line@;
            self.line[i].set_clipping(x, width);
            proof {
                assert forall|k: int| 0 <= k < self.max_height && k != i implies self.line@[k]
                    == pre[k] by {}
            }
            i = i + 1;
        }
        self.clip = Rect { x, y, width: x + width, height: y + height };
        self.current_line_index = 0;
    }

    /// Gives the screen `height` lines of `width` cells, keeps what remains
    /// of the old content, and resets the clipping and the fill state.
    pub fn resize(&mut self, width: usize, height: usize)
        requires
            width > 0,
            height > 0,
            width * height <= usize::MAX,
        ensures
            final(self).wf(),
            final(self).max_width == width,
            final(self).max_height == height,
            final(self).clip == (Rect { x: 0, y: 0, width, height }),
            final(self).current_line_index == 0,
            final(self).push_count == 0,
            final(self).first_offset == 0,
            final(self).last_offset == 0,
            final(self).doc_max_offset == 0,
            final(self).input_size == 0,
            final(self).push_capacity == width * height,
            final(self).is_off_screen == old(self).is_off_screen,
            forall|i: int|
                0 <= i < height ==> (#[trigger] final(self).line@[i]).max_width == width
                    && final(self).line@[i].nb_cells == 0 && !final(self).line@[i].read_only,
            forall|i: int, j: int|
                0 <= i < height && 0 <= j < width ==> #[trigger] final(self).line@[i].cells@[j]
                    == if i < old(self).line@.len() {
                    resized_cell(old(self).line@[i], j)
                } else {
                    line::LineCell::spec_new()
                },
    {
        if height < self.line.len() {
            self.line.truncate(height);
        }
        let kept = self.line.len();
        let mut i: usize = 0;
        while i < kept
            invariant
                self.is_off_screen == old(self).is_off_screen,
                self.push_capacity == old(self).push_capacity,
                i <= kept,
                kept <= height,
                kept == self.line@.len(),
                kept == if height < old(self).line@.len() {
                    height as int
                } else {
                    old(self).line@.len() as int
                },
                forall|k: int|
                    0 <= k < i ==> (#[trigger] self.line@[k]).is_fresh(width) && forall|j: int|
                        0 <= j < width ==> #[trigger] self.line@[k].cells@[j] == resized_cell(
                            old(self).line@[k],
                            j,
                        ),
                forall|k: int| i <= k < kept ==> #[trigger] self.line@[k] == old(self).line@[k],
            decreases kept - i,
        {
            let ghost pre = self.line@;
            self.line[i].resize(width);
            proof {
                assert forall|k: int| 0 <= k < kept && k != i implies self.line@[k] == pre[k] by {}
            }
            i = i + 1;
        }
        while self.line.len() < height
            invariant
                self.is_off_screen == old(self).is_off_screen,
                self.push_capacity == old(self).push_capacity,
                kept <= self.line@.len() <= height,
                kept == if height < old(self).line@.len() {
                    height as int
                } else {
                    old(self).line@.len() as int
                },
                forall|k: int|
                    0 <= k < kept ==> (#[trigger] self.line@[k]).is_fresh(width) && forall|j: int|
                        0 <= j < width ==> #[trigger] self.line@[k].cells@[j] == resized_cell(
                            old(self).line@[k],
                            j,
                        ),
                forall|k: int|
                    kept <= k < self.line@.len() ==> (#[trigger] self.line@[k]).is_fresh(width)
                        && forall|j: int|
                        0 <= j < width ==> #[trigger] self.line@[k].cells@[j]
                            == line::LineCell::spec_new(),
            decreases height - self.line@.len(),
        {
            self.line.push(Line::new(width));
        }
        self.max_height = height;
        self.max_width = width;
        self.set_clipping(0, 0, width, height);

        self.current_line_index = 0;
        self.push_count = 0;
        self.first_offset = 0;
        self.last_offset = 0;
        self.doc_max_offset = 0;
        self.push_capacity = width * height;
        self.input_size = 0;
    }

    pub fn push_available(&self) -> (a: usize)
        ensures
            a == if self.push_capacity >= self.push_count {
                self.push_capacity - self.push_count
            } else {
                0
            },
    {
        if self.push_capacity() >= self.push_count {
            self.push_capacity() - self.push_count
        } else {
            0
        }
    }

    pub fn push_count(&self) -> (c: usize)
        ensures
            c == self.push_count,
    {
        self.push_count
    }

    pub fn push_capacity(&self) -> (c: usize)
        ensures
            c == self.push_capacity,
    {
        self.push_capacity
    }
}

impl Screen {
    /// Index (in the clipping rectangle) of the line a push goes to: the
    /// current one, or the next one when the current one is read-only.
    pub open spec fn push_target(self) -> int {
        if self.line@[self.row(self.current_line_index as int)].read_only {
            self.current_line_index + 1
        } else {
            self.current_line_index as int
        }
    }

    /// Everything that a push leaves alone.
    pub open spec fn same_setup(self, other: Screen) -> bool {
        &&& self.line@.len() == other.line@.len()
        &&& self.is_off_screen == other.is_off_screen
        &&& self.clip == other.clip
        &&& self.max_width == other.max_width
        &&& self.max_height == other.max_height
        &&& self.first_offset == other.first_offset
        &&& self.doc_max_offset == other.doc_max_offset
        &&& self.time_to_build == other.time_to_build
        &&& self.input_size == other.input_size
    }

    /// `f` is `o` once `cpi` was pushed, `r` being what push returned.
    pub open spec fn push_post(o: Screen, f: Screen, cpi: CodepointInfo, r: (bool, LineIndex)) -> bool {
        &&& f.wf()
        &&& f.same_setup(o)
        &&& if o.current_line_index == o.spec_height() {
            &&& r == (false, o.current_line_index)
            &&& f.line@ == o.line@
            &&& f.current_line_index == o.current_line_index
            &&& f.push_count == o.push_count
            &&& f.push_capacity == o.push_capacity
            &&& f.last_offset == o.last_offset
        } else if o.push_target() == o.spec_height() {
            &&& r == (false, o.push_target() as usize)
            &&& f.line@ == o.line@
            &&& f.current_line_index == o.push_target()
            &&& f.push_count == o.push_count
            &&& f.push_capacity == o.push_capacity
            &&& f.last_offset == o.last_offset
        } else {
            let y = o.row(o.push_target());
            let l = o.line@[y];
            let nl = f.line@[y];
            let accepted = l.push_accepts();
            let avail = nl.spec_width() - nl.nb_cells;
            &&& r == (accepted, o.push_target() as usize)
            &&& f.current_line_index == o.push_target()
            &&& f.line@ == o.line@.update(y, nl)
            &&& l.after_push(nl, cpi)
            &&& nl.read_only == (!accepted || nl.nb_cells == nl.spec_width() || is_eol(cpi.cp))
            &&& if accepted {
                &&& f.push_count == o.push_count + 1
                &&& f.last_offset == (match cpi.offset {
                    Some(off) => off,
                    None => o.last_offset,
                })
                &&& f.push_capacity == if is_eol(cpi.cp) {
                    if o.push_capacity >= avail {
                        o.push_capacity - avail
                    } else {
                        0
                    }
                } else {
                    o.push_capacity as int
                }
            } else {
                &&& f.push_count == o.push_count
                &&& f.push_capacity == o.push_capacity
                &&& f.last_offset == o.last_offset
            }
        }
    }

    /// Appends a cell at the fill cursor, moving to the next line of the
    /// clipping rectangle when the current one is read-only; an end of line
    /// closes the line.
    pub fn push(&mut self, cpi: CodepointInfo) -> (r: (bool, LineIndex))
        requires
            old(self).wf(),
            old(self).current_line_index < old(self).spec_height() ==> old(self).clip.x == 0
                && old(self).push_count < usize::MAX,
        ensures
            Self::push_post(*old(self), *final(self), cpi, r),
    {
        if self.current_line_index == self.height() {
            return (false, self.current_line_index);
        }
        if self.line[self.clip.y + self.current_line_index].read_only {
            self.current_line_index += 1;
        }
        if self.current_line_index == self.height() {
            return (false, self.current_line_index);
        }

        let cp = cpi.cp;
        let y = self.clip.y + self.current_line_index;
        let ghost pre = self.line@;
        let (ok, _) = self.line[y].push(cpi);
        if ok {
            if let Some(off) = cpi.offset {
                self.last_offset = off;
            }
            self.push_count += 1;
            if cp == '\n' || cp == '\r' {
                self.line[y].read_only = true;
                let avail = self.line[y].available();
                if self.push_capacity >= avail {
                    self.push_capacity -= avail;
                } else {
                    self.push_capacity = 0;
                }
            }
        }
        proof {
            assert(self.line@ =~= pre.update(y as int, self.line@[y as int]));
            assert forall|i: int| 0 <= i < self.max_height && i != y implies self.line@[i]
                == pre[i] by {}
        }
        (ok, self.current_line_index)
    }

    /// Pushes the code points in order until one is refused; returns how
    /// many were pushed, the fill cursor and the last recorded offset.
    pub fn append(&mut self, cpi_vec: &Vec<CodepointInfo>) -> (r: (usize, LineIndex, u64))
        requires
            old(self).wf(),
            old(self).clip.x == 0,
            old(self).push_count + cpi_vec@.len() <= usize::MAX,
        ensures
            r.0 <= cpi_vec@.len(),
            r.1 == final(self).current_line_index,
            r.2 == final(self).last_offset,
            exists|states: Seq<Screen>|
                {
                    &&& #[trigger] states.len() == (if r.0 < cpi_vec@.len() {
                        r.0 + 2
                    } else {
                        r.0 + 1
                    })
                    &&& states[0] == *old(self)
                    &&& states.last() == *final(self)
                    &&& forall|i: int|
                        0 <= i < r.0 ==> Self::push_post(
                            states[i],
                            #[trigger] states[i + 1],
                            cpi_vec@[i],
                            (true, states[i + 1].current_line_index),
                        )
                    &&& r.0 < cpi_vec@.len() ==> Self::push_post(
                        states[r.0 as int],
                        states[r.0 + 1],
                        cpi_vec@[r.0 as int],
                        (false, r.1),
                    )
                },
    {
        let ghost mut states: Seq<Screen> = seq![*self];
        let mut idx: usize = 0;
        while idx < cpi_vec.len()
            invariant
                idx <= cpi_vec@.len(),
                self.wf(),
                self.clip.x == 0,
                self.push_count == old(self).push_count + idx,
                old(self).push_count + cpi_vec@.len() <= usize::MAX,
                states.len() == idx + 1,
                states[0] == *old(self),
                states.last() == *self,
                forall|i: int|
                    0 <= i < idx ==> Self::push_post(
                        states[i],
                        #[trigger] states[i + 1],
                        cpi_vec@[i],
                        (true, states[i + 1].current_line_index),
                    ),
            decreases cpi_vec@.len() - idx,
        {
            let ret = self.push(cpi_vec[idx]);
            proof {
                states = states.push(*self);
            }
            if !ret.0 {
                assert(states.len() == idx + 2);
                return (idx, ret.1, self.last_offset);
            }
            idx = idx + 1;
        }
        (cpi_vec.len(), self.current_line_index, self.last_offset)
    }

    /// Empties every line, resets the fill state and the clipping.
    pub fn clear(&mut self)
        requires
            old(self).wf(),
            old(self).max_width > 0,
            old(self).max_height > 0,
            old(self).max_width * old(self).max_height <= usize::MAX,
        ensures
            final(self).wf(),
            final(self).clip == (Rect {
                x: 0,
                y: 0,
                width: old(self).max_width,
                height: old(self).max_height,
            }),
            final(self).max_width == old(self).max_width,
            final(self).max_height == old(self).max_height,
            final(self).current_line_index == 0,
            final(self).push_count == 0,
            final(self).push_capacity == old(self).max_width * old(self).max_height,
            final(self).first_offset == 0,
            final(self).last_offset == 0,
            final(self).doc_max_offset == 0,
            final(self).input_size == 0,
            final(self).is_off_screen == old(self).is_off_screen,
            forall|i: int|
                0 <= i < old(self).max_height ==> (#[trigger] final(self).line@[i]).nb_cells == 0
                    && !final(self).line@[i].read_only,
            forall|i: int, j: int|
                0 <= i < old(self).max_height && 0 <= j < old(self).max_width ==> #[trigger] final(self).line@[i].cells@[j] == if old(self).line@[i].start_index <= j < old(self).line@[i].clip_end() {
                    line::LineCell::spec_new()
                } else {
                    old(self).line@[i].cells@[j]
                },
    {
        let mut h: usize = 0;
        while h < self.max_height
            invariant
                h <= self.max_height,
                self.max_height == old(self).max_height,
                self.max_width == old(self).max_width,
                self.line@.len() == self.max_height,
                self.is_off_screen == old(self).is_off_screen,
                forall|k: int|
                    0 <= k < self.max_height ==> (#[trigger] self.line@[k]).wf()
                        && self.line@[k].max_width == self.max_width,
                forall|k: int|
                    h <= k < self.max_height ==> #[trigger] self.line@[k] == old(self).line@[k],
                forall|k: int|
                    0 <= k < h ==> (#[trigger] self.line@[k]).nb_cells == 0 && !self.line@[k].read_only,
                forall|k: int, j: int|
                    0 <= k < h && 0 <= j < self.max_width ==> #[trigger] self.line@[k].cells@[j]
                        == if old(self).line@[k].start_index <= j < old(self).line@[k].clip_end() {
                        line::LineCell::spec_new()
                    } else {
                        old(self).line@[k].cells@[j]
                    },
            decreases self.max_height - h,
        {
            let ghost pre = self.line@;
            self.line[h].clear();
            proof {
                assert forall|k: int| 0 <= k < self.max_height && k != h implies self.line@[k]
                    == pre[k] by {}
            }
            h = h + 1;
        }
        self.current_line_index = 0;
        self.push_count = 0;
        self.push_capacity = self.max_width * self.max_height;
        self.first_offset = 0;
        self.last_offset = 0;
        self.doc_max_offset = 0;
        self.input_size = 0;
        let w = self.max_width;
        let hh = self.max_height;
        self.set_clipping(0, 0, w, hh);
    }
}

impl Screen {
    /// The used cell at column x of the used line y.
    pub open spec fn cell_is_used(self, x: int, y: int) -> bool {
        &&& 0 <= y < self.spec_height()
        &&& self.line_is_used(y)
        &&& 0 <= x < self.line@[self.row(y)].nb_cells
    }

    pub fn get_used_cpinfo(&self, x: usize, y: usize) -> (r: Option<&CodepointInfo>)
        requires
            self.wf(),
        ensures
            self.cell_is_used(x as int, y as int) ==> r == Some(&self.cell_xy(x as int, y as int).cpi),
            !self.cell_is_used(x as int, y as int) ==> r is None,
    {
        match self.get_used_line(y) {
            None => None,
            Some(l) => l.get_used_cpi(x),
        }
    }

    pub fn get_mut_used_cpinfo(&mut self, x: usize, y: usize) -> (r: Option<&mut CodepointInfo>)
        requires
            old(self).wf(),
            y <= old(self).current_line_index ==> old(self).row(y as int) < old(self).max_height,
        ensures
            old(self).line_is_used(y as int) && x < old(self).line@[old(self).row(y as int)].nb_cells
                ==> (r matches Some(c) && *c == old(self).line@[old(self).row(y as int)].cell_at(
                x as int,
            ).cpi && final(self).same_but_lines(*old(self)) && final(self).line@ == old(self).line@.update(
                old(self).row(y as int),
                final(self).line@[old(self).row(y as int)],
            ) && final(self).line@[old(self).row(y as int)].same_layout(
                old(self).line@[old(self).row(y as int)],
            ) && final(self).line@[old(self).row(y as int)].cells@ == old(self).line@[old(self).row(
                y as int,
            )].cells@.update(
                old(self).line@[old(self).row(y as int)].start_index + x,
                line::LineCell {
                    cpi: *final(c),
                    is_used: old(self).line@[old(self).row(y as int)].cell_at(x as int).is_used,
                },
            )),
            !(old(self).line_is_used(y as int) && x < old(self).line@[old(self).row(y as int)].nb_cells)
                ==> r is None && final(self).same_but_lines(*old(self)) && final(self).line@ == old(
                self,
            ).line@,
    {
        match self.get_mut_used_line(y) {
            None => None,
            Some(l) => l.get_mut_used_cpi(x),
        }
    }

    /// The first used cell of the first line, at (0, 0).
    pub fn get_mut_first_cpinfo(&mut self) -> (r: (Option<&mut CodepointInfo>, usize, usize))
        requires
            old(self).wf(),
            old(self).clip.y < old(self).max_height,
        ensures
            r.1 == 0 && r.2 == 0,
            old(self).line_is_used(0) ==> (r.0 matches Some(c) && *c == old(self).line@[old(self).row(
                0,
            )].cell_at(0).cpi && final(self).same_but_lines(*old(self)) && final(self).line@ == old(
                self,
            ).line@.update(old(self).row(0), final(self).line@[old(self).row(0)])
                && final(self).line@[old(self).row(0)].same_layout(old(self).line@[old(self).row(0)])
                && final(self).line@[old(self).row(0)].cells@ == old(self).line@[old(self).row(
                0,
            )].cells@.update(
                old(self).line@[old(self).row(0)].start_index as int,
                line::LineCell {
                    cpi: *final(c),
                    is_used: old(self).line@[old(self).row(0)].cell_at(0).is_used,
                },
            )),
            !old(self).line_is_used(0) ==> r.0 is None && final(self).same_but_lines(*old(self))
                && final(self).line@ == old(self).line@,
    {
        match self.get_mut_used_line(0) {
            None => (None, 0, 0),
            Some(l) => (l.get_mut_used_cpi(0), 0, 0),
        }
    }

    /// The first cell of the line at the fill cursor, with the number of
    /// cells used in that line and the cursor.
    pub fn get_mut_last_cpinfo(&mut self) -> (r: (Option<&mut CodepointInfo>, usize, usize))
        requires
            old(self).wf(),
            old(self).row(old(self).current_line_index as int) < old(self).max_height,
        ensures
            ({
                let y = old(self).current_line_index as int;
                let l = old(self).line@[old(self).row(y)];
                if old(self).line_is_used(y) {
                    &&& r.1 == l.nb_cells
                    &&& r.2 == y
                    &&& r.0 matches Some(c)
                    &&& *c == l.cell_at(0).cpi
                    &&& final(self).same_but_lines(*old(self))
                    &&& final(self).line@ == old(self).line@.update(
                        old(self).row(y),
                        final(self).line@[old(self).row(y)],
                    )
                    &&& final(self).line@[old(self).row(y)].same_layout(l)
                    &&& final(self).line@[old(self).row(y)].cells@ == l.cells@.update(
                        l.start_index as int,
                        line::LineCell { cpi: *final(c), is_used: l.cell_at(0).is_used },
                    )
                } else {
                    &&& r.0 is None
                    &&& r.1 == 0
                    &&& r.2 == 0
                    &&& final(self).same_but_lines(*old(self))
                    &&& final(self).line@ == old(self).line@
                }
            }),
    {
        let y = self.current_line_index;
        match self.get_mut_used_line(y) {
            None => (None, 0, 0),
            Some(l) => {
                let x = l.nb_cells;
                (l.get_mut_used_cpi(0), x, y)
            },
        }
    }

    pub fn get_first_cpinfo(&self) -> (r: (Option<&CodepointInfo>, usize, usize))
        requires
            self.wf(),
        ensures
            r.1 == 0 && r.2 == 0,
            0 < self.spec_height() && self.line_is_used(0) ==> r.0 == Some(&self.cell_xy(0, 0).cpi),
            !(0 < self.spec_height() && self.line_is_used(0)) ==> r.0 is None,
    {
        match self.get_used_line(0) {
            None => (None, 0, 0),
            Some(l) => (l.get_used_cpi(0), 0, 0),
        }
    }

    /// The first cell of the last used line, with the index of the last
    /// used cell of that line and the line index.
    pub fn get_last_cpinfo(&self) -> (r: (Option<&CodepointInfo>, usize, usize))
        requires
            self.wf(),
            self.current_line_index == self.clip.height ==> self.current_line_index > 0,
        ensures
            ({
                let y = if self.current_line_index == self.clip.height {
                    self.current_line_index - 1
                } else {
                    self.current_line_index as int
                };
                if y < self.spec_height() && self.line_is_used(y) {
                    r == (Some(&self.cell_xy(0, y).cpi), (self.line@[self.row(y)].nb_cells - 1) as usize, y as usize)
                } else {
                    r == (None::<&CodepointInfo>, 0usize, 0usize)
                }
            }),
    {
        let y = if self.current_line_index == self.clip.height {
            self.current_line_index - 1
        } else {
            self.current_line_index
        };
        match self.get_used_line(y) {
            None => (None, 0, 0),
            Some(l) => {
                if l.nb_cells > 0 {
                    let x = l.nb_cells - 1;
                    (l.get_used_cpi(0), x, y)
                } else {
                    (None, 0, 0)
                }
            },
        }
    }

    pub fn get_used_cpinfo_unclipped(&mut self, x: usize, y: usize) -> (r: (
        Option<&CodepointInfo>,
        LineCellIndex,
        LineIndex,
    ))
        requires
            old(self).wf(),
        ensures
            *final(self) == *old(self),
            r.1 == x && r.2 == y,
            old(self).cell_is_used(x as int, y as int) ==> r.0 == Some(
                &old(self).cell_xy(x as int, y as int).cpi,
            ),
            !old(self).cell_is_used(x as int, y as int) ==> r.0 is None,
    {
        match self.get_used_line(y) {
            None => (None, x, y),
            Some(l) => match l.get_used_cpi(x) {
                Some(optcpi) => (Some(optcpi), x, y),
                None => (None, x, y),
            },
        }
    }

    pub fn at_xy(&mut self, x: usize, y: usize) -> (r: Option<&mut CodepointInfo>)
        requires
            old(self).wf(),
        ensures
            x < old(self).spec_width() && y < old(self).spec_height() ==> (r matches Some(c) && *c
                == old(self).cell_xy(x as int, y as int).cpi && final(self).same_but_lines(*old(self))
                && final(self).line@ == old(self).line@.update(
                old(self).row(y as int),
                final(self).line@[old(self).row(y as int)],
            ) && final(self).line@[old(self).row(y as int)].same_layout(
                old(self).line@[old(self).row(y as int)],
            ) && final(self).line@[old(self).row(y as int)].cells@ == old(self).line@[old(self).row(
                y as int,
            )].cells@.update(
                old(self).clip.x + x,
                line::LineCell { cpi: *final(c), is_used: old(self).cell_xy(x as int, y as int).is_used },
            )),
            !(x < old(self).spec_width() && y < old(self).spec_height()) ==> r is None
                && final(self).same_but_lines(*old(self)) && final(self).line@ == old(self).line@,
    {
        self.get_mut_cpinfo(x, y)
    }

    pub fn at_yx(&mut self, y: usize, x: usize) -> (r: Option<&mut CodepointInfo>)
        requires
            old(self).wf(),
        ensures
            x < old(self).spec_width() && y < old(self).spec_height() ==> (r matches Some(c) && *c
                == old(self).cell_xy(x as int, y as int).cpi && final(self).same_but_lines(*old(self))
                && final(self).line@ == old(self).line@.update(
                old(self).row(y as int),
                final(self).line@[old(self).row(y as int)],
            ) && final(self).line@[old(self).row(y as int)].same_layout(
                old(self).line@[old(self).row(y as int)],
            ) && final(self).line@[old(self).row(y as int)].cells@ == old(self).line@[old(self).row(
                y as int,
            )].cells@.update(
                old(self).clip.x + x,
                line::LineCell { cpi: *final(c), is_used: old(self).cell_xy(x as int, y as int).is_used },
            )),
            !(x < old(self).spec_width() && y < old(self).spec_height()) ==> r is None
                && final(self).same_but_lines(*old(self)) && final(self).line@ == old(self).line@,
    {
        self.at_xy(x, y)
    }
}

/// The offset recorded in a cell, as an integer (0 when there is none).
pub open spec fn cell_offset(c: CodepointInfo) -> int {
    match c.offset {
        Some(o) => o as int,
        None => 0,
    }
}

impl Screen {
    /// Offset of the first cell of line `i` of the clipping rectangle.
    pub open spec fn line_first_offset(self, i: int) -> int {
        cell_offset(self.cell_xy(0, i).cpi)
    }

    /// Offset of the last used cell of line `i` of the clipping rectangle.
    pub open spec fn line_last_offset(self, i: int) -> int {
        cell_offset(self.cell_xy(self.line@[self.row(i)].nb_cells - 1, i).cpi)
    }

    /// The lines up to the fill cursor are used, their first and last cells
    /// carry offsets, and their offset ranges follow each other.
    pub open spec fn lines_sorted(self) -> bool {
        &&& self.current_line_index < self.spec_height()
        &&& forall|i: int|
            0 <= i <= self.current_line_index ==> {
                &&& #[trigger] self.line@[self.row(i)].nb_cells > 0
                &&& self.cell_xy(0, i).cpi.offset is Some
                &&& self.cell_xy(self.line@[self.row(i)].nb_cells - 1, i).cpi.offset is Some
                &&& self.line_first_offset(i) <= self.line_last_offset(i)
            }
        &&& forall|i: int, j: int|
            0 <= i < j <= self.current_line_index ==> #[trigger] self.line_last_offset(i)
                < #[trigger] self.line_first_offset(j)
    }

    /// Cell x of line i records `offset` and is not layout metadata.
    pub open spec fn cell_has_offset(self, x: int, i: int, offset: u64) -> bool {
        !self.cell_xy(x, i).cpi.metadata && self.cell_xy(x, i).cpi.offset == Some(offset)
    }

    /// Line i holds `offset` in its offset range and one of its cells
    /// records it.
    pub open spec fn line_holds_offset(self, i: int, offset: u64) -> bool {
        &&& 0 <= i <= self.current_line_index
        &&& self.line_first_offset(i) <= offset <= self.line_last_offset(i)
        &&& exists|x: int| 0 <= x < self.spec_width() && #[trigger] self.cell_has_offset(x, i, offset)
    }

    /// `offset` lies between the first and last recorded offsets.
    pub open spec fn offset_in_range(self, offset: u64) -> bool {
        self.first_offset <= offset <= self.last_offset
    }

    /// Finds the cell that records `offset`, by a binary search over the
    /// lines followed by a scan of the line found.
    pub fn find_cpi_by_offset(&self, offset: u64) -> (r: (Option<&CodepointInfo>, usize, usize))
        requires
            self.wf(),
            self.offset_in_range(offset) ==> self.lines_sorted() && exists|i: int|
                self.line_holds_offset(i, offset),
        ensures
            !self.offset_in_range(offset) ==> r == (None::<&CodepointInfo>, 0usize, 0usize),
            self.offset_in_range(offset) ==> {
                &&& r.2 <= self.current_line_index
                &&& self.line_first_offset(r.2 as int) <= offset <= self.line_last_offset(r.2 as int)
                &&& r.1 < self.spec_width()
                &&& self.cell_has_offset(r.1 as int, r.2 as int, offset)
                &&& forall|x: int| 0 <= x < r.1 ==> !self.cell_has_offset(x, r.2 as int, offset)
                &&& r.0 == Some(&self.cell_xy(r.1 as int, r.2 as int).cpi)
            },
    {
        if offset < self.first_offset || offset > self.last_offset {
            return (None, 0, 0);
        }
        let ghost t = choose|i: int| self.line_holds_offset(i, offset);
        proof {
            if t < 0 {
            }
            assert(self.line_holds_offset(t, offset));
        }
        let mut max = self.current_line_index;
        let mut min: usize = 0;
        loop
            invariant
                self.wf(),
                self.lines_sorted(),
                self.line_holds_offset(t, offset),
                self.offset_in_range(offset),
                min <= t <= max,
                max <= self.current_line_index,
            decreases max - min,
        {
            let idx = min + (max - min) / 2;
            let l = self.get_line(idx).unwrap();
            let f_cpi = l.get_first_cpi().unwrap();
            let l_cpi = l.get_last_cpi().unwrap();
            let first = f_cpi.offset.unwrap();
            let last = l_cpi.offset.unwrap();
            if offset >= first && offset <= last {
                proof {
                    if idx < t {
                        assert(self.line_last_offset(idx as int) < self.line_first_offset(t));
                    } else if idx > t {
                        assert(self.line_last_offset(t) < self.line_first_offset(idx as int));
                    }
                }
                let w = l.width();
                let mut x: usize = 0;
                while x < w
                    invariant
                        self.wf(),
                        idx == t,
                        0 <= idx <= self.current_line_index,
                        idx < self.spec_height(),
                        *l == self.line@[self.row(idx as int)],
                        w == l.spec_width(),
                        w == self.spec_width(),
                        x <= w,
                        self.line_holds_offset(t, offset),
                        self.offset_in_range(offset),
                        forall|k: int| 0 <= k < x ==> !self.cell_has_offset(k, idx as int, offset),
                    decreases w - x,
                {
                    let cpi = l.get_cpi(x).unwrap();
                    if !cpi.metadata {
                        if let Some(cpi_offset) = cpi.offset {
                            if cpi_offset == offset {
                                return (Some(cpi), x, idx);
                            }
                        }
                    }
                    x = x + 1;
                }
                proof {
                    let k = choose|k: int| 0 <= k < self.spec_width() && #[trigger] self.cell_has_offset(k, t, offset);
                    assert(!self.cell_has_offset(k, t, offset));
                }
                return (None, 0, 0);
            } else if offset > last {
                proof {
                    if t <= idx {
                        if t < idx {
                            assert(self.line_last_offset(t) < self.line_first_offset(idx as int));
                        }
                    }
                }
                min = idx + 1;
            } else {
                proof {
                    if t >= idx {
                        if t > idx {
                            assert(self.line_last_offset(idx as int) < self.line_first_offset(t));
                        }
                    }
                }
                max = idx - 1;
            }
        }
    }

    pub fn contains_offset(&self, offset: u64) -> (b: bool)
        requires
            self.wf(),
            self.offset_in_range(offset) ==> self.lines_sorted() && exists|i: int|
                self.line_holds_offset(i, offset),
        ensures
            b == self.offset_in_range(offset),
    {
        if offset < self.first_offset || offset > self.last_offset {
            return false;
        }
        let (cpi, _, _) = self.find_cpi_by_offset(offset);
        match cpi {
            Some(_) => true,
            _ => false,
        }
    }
}

/// A view's screen follows the size the editor was given: a screen of
/// another size is replaced by a new, empty one of `width` by `height`.
pub fn check_view_dimension(screen: &mut Screen, width: usize, height: usize)
    requires
        old(screen).wf(),
        width > 0,
        height > 0,
        width * height <= usize::MAX,
    ensures
        ({
            let same = old(screen).spec_width() == width && old(screen).spec_height() == height;
            &&& same ==> *final(screen) == *old(screen)
            &&& !same ==> final(screen).is_empty_screen(width, height)
        }),
{
    if screen.width() == width && screen.height() == height {
        return ;
    }
    *screen = Screen::new(width, height);
}

} // verus!
