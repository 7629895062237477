//! A displayed line: a fixed array of cells, a clipping window over them and
//! a fill counter.
//!
//! The cells that can be written are those of the clipping window
//! `[start_index, clip_end)`; `nb_cells` of them, counted from the start of
//! the window, are in use.

use std::collections::hash_map::DefaultHasher;
use std::hash::Hasher;

use vstd::prelude::*;
use vstd::std_specs::hash::DefaultHasherAdditionalSpecFns;

use crate::codepointinfo::CodepointInfo;

verus! {

pub type LineCellIndex = usize;

/// A LineCell encapsulates code point information (CodepointInfo).
/// The displayed Lines are composed of LineCell.
#[derive(Debug, Clone, Copy, PartialEq, Eq)]
pub struct LineCell {
    pub cpi: CodepointInfo,
    pub is_used: bool,
}

impl LineCell {
    pub open spec fn spec_new() -> LineCell {
        LineCell { cpi: CodepointInfo::spec_new(), is_used: false }
    }

    pub fn new() -> (c: LineCell)
        ensures
            c == Self::spec_new(),
    {
        LineCell { cpi: CodepointInfo::new(), is_used: false }
    }
}

/// The bytes that stand for one cell when a line is hashed.
pub open spec fn cell_hash_bytes(c: LineCell) -> Seq<u8> {
    seq![
        c.is_used as u8,
        c.cpi.metadata as u8,
        (c.cpi.cp as u32 & 0xff) as u8,
        ((c.cpi.cp as u32 >> 8u32) & 0xff) as u8,
        ((c.cpi.cp as u32 >> 16u32) & 0xff) as u8,
        (c.cpi.displayed_cp as u32 & 0xff) as u8,
        ((c.cpi.displayed_cp as u32 >> 8u32) & 0xff) as u8,
        ((c.cpi.displayed_cp as u32 >> 16u32) & 0xff) as u8,
        c.cpi.style.color.0,
        c.cpi.style.color.1,
        c.cpi.style.color.2,
        c.cpi.style.bg_color.0,
        c.cpi.style.bg_color.1,
        c.cpi.style.bg_color.2,
        c.cpi.style.is_selected as u8,
        c.cpi.style.is_inverse as u8,
    ]
}

/// What is fed to the hasher for the cells `cells[from..from + n]`.
pub open spec fn cells_hash_input(cells: Seq<LineCell>, from: int, n: int) -> Seq<Seq<u8>>
    decreases n,
{
    if n <= 0 {
        Seq::empty()
    } else {
        cells_hash_input(cells, from, n - 1).push(cell_hash_bytes(cells[from + n - 1]))
    }
}

fn cell_bytes(c: &LineCell) -> (v: Vec<u8>)
    ensures
        v@ == cell_hash_bytes(*c),
{
    let cp: u32 = c.cpi.cp as u32;
    let dcp: u32 = c.cpi.displayed_cp as u32;
    let v = vec![
        c.is_used as u8,
        c.cpi.metadata as u8,
        (cp & 0xff) as u8,
        ((cp >> 8u32) & 0xff) as u8,
        ((cp >> 16u32) & 0xff) as u8,
        (dcp & 0xff) as u8,
        ((dcp >> 8u32) & 0xff) as u8,
        ((dcp >> 16u32) & 0xff) as u8,
        c.cpi.style.color.0,
        c.cpi.style.color.1,
        c.cpi.style.color.2,
        c.cpi.style.bg_color.0,
        c.cpi.style.bg_color.1,
        c.cpi.style.bg_color.2,
        c.cpi.style.is_selected as u8,
        c.cpi.style.is_inverse as u8,
    ];
    assert(v@ =~= cell_hash_bytes(*c));
    v
}

/// Hashes `cells[from..from + n]`.
fn hash_cells(cells: &Vec<LineCell>, from: usize, n: usize) -> (h: u64)
    requires
        from + n <= cells@.len(),
    ensures
        h == DefaultHasher::spec_finish(cells_hash_input(cells@, from as int, n as int)),
{
    let mut s = DefaultHasher::new();
    let mut i: usize = 0;
    while i < n
        invariant
            i <= n,
            from + n <= cells@.len(),
            s@ == cells_hash_input(cells@, from as int, i as int),
        decreases n - i,
    {
        assert(from + i < cells.len());
        let bytes = cell_bytes(&cells[from + i]);
        s.write(bytes.as_slice());
        i = i + 1;
    }
    s.finish()
}

/// A Line is an array of LineCell and some metadata.
/// A Screen is composed of Line(s).
#[derive(Debug, Default, PartialEq, Eq)]
pub struct Line {
    pub cells: Vec<LineCell>,
    pub nb_cells: usize,
    pub max_width: usize,
    pub start_index: usize,
    pub width: usize,
    pub read_only: bool,
    pub hash_cache: u64,
    pub hash_unclipped_cache: u64,
}

impl Line {
    /// End (exclusive) of the clipping window.
    pub open spec fn clip_end(self) -> usize {
        self.width
    }

    /// Cached hash of the clipped cells (0 when not computed).
    pub open spec fn hash_cache_value(self) -> u64 {
        self.hash_cache
    }

    /// Cached hash of all the cells (0 when not computed).
    pub open spec fn hash_unclipped_cache_value(self) -> u64 {
        self.hash_unclipped_cache
    }

    /// Number of cells in the clipping window.
    pub open spec fn spec_width(self) -> int {
        self.clip_end() - self.start_index
    }

    /// The line is consistent: one cell per column, the clipping window
    /// lies within the columns and the used cells lie within the window.
    pub open spec fn wf(self) -> bool {
        &&& self.cells@.len() == self.max_width
        &&& self.start_index <= self.clip_end() <= self.max_width
        &&& self.start_index + self.nb_cells <= self.clip_end()
    }

    /// Cell `index` of the clipping window.
    pub open spec fn cell_at(self, index: int) -> LineCell {
        self.cells@[self.start_index + index]
    }

    /// A freshly cleared line of `width` columns.
    pub open spec fn is_fresh(self, width: usize) -> bool {
        &&& self.wf()
        &&& self.max_width == width
        &&& self.start_index == 0
        &&& self.clip_end() == width
        &&& self.nb_cells == 0
        &&& !self.read_only
        &&& self.hash_cache_value() == 0
        &&& self.hash_unclipped_cache_value() == 0
    }

    pub fn new(width: usize) -> (l: Self)
        ensures
            l.is_fresh(width),
            forall|i: int| 0 <= i < width ==> #[trigger] l.cells@[i] == LineCell::spec_new(),
    {
        let mut cells: Vec<LineCell> = Vec::with_capacity(width);
        let mut i: usize = 0;
        while i < width
            invariant
                i <= width,
                cells@.len() == i,
                forall|j: int| 0 <= j < i ==> #[trigger] cells@[j] == LineCell::spec_new(),
            decreases width - i,
        {
            cells.push(LineCell::new());
            i = i + 1;
        }

        Line {
            cells,
            nb_cells: 0,
            max_width: width,
            start_index: 0,
            width,
            read_only: false,
            hash_cache: 0,
            hash_unclipped_cache: 0,
        }
    }

    /// Hash of the clipped cells, computed once and then cached.
    pub fn hash(&mut self) -> (h: u64)
        requires
            old(self).wf(),
        ensures
            old(self).hash_cache_value() != 0 ==> h == old(self).hash_cache_value()
                && *final(self) == *old(self),
            old(self).hash_cache_value() == 0 ==> {
                &&& h == DefaultHasher::spec_finish(
                    cells_hash_input(old(self).cells@, old(self).start_index as int, old(self).spec_width()),
                )
                &&& final(self).hash_cache_value() == h
                &&& final(self).cells == old(self).cells
                &&& final(self).nb_cells == old(self).nb_cells
                &&& final(self).max_width == old(self).max_width
                &&& final(self).start_index == old(self).start_index
                &&& final(self).clip_end() == old(self).clip_end()
                &&& final(self).read_only == old(self).read_only
                &&& final(self).hash_unclipped_cache_value() == old(self).hash_unclipped_cache_value()
            },
    {
        if self.hash_cache != 0 {
            return self.hash_cache;
        }
        let w = self.width();
        self.hash_cache = hash_cells(&self.cells, self.start_index, w);
        self.hash_cache
    }

    /// Hash of all the cells, computed once and then cached.
    pub fn hash_unclipped(&mut self) -> (h: u64)
        requires
            old(self).wf(),
        ensures
            old(self).hash_unclipped_cache_value() != 0 ==> h == old(
                self,
            ).hash_unclipped_cache_value() && *final(self) == *old(self),
            old(self).hash_unclipped_cache_value() == 0 ==> {
                &&& h == DefaultHasher::spec_finish(
                    cells_hash_input(old(self).cells@, 0, old(self).max_width as int),
                )
                &&& final(self).hash_unclipped_cache_value() == h
                &&& final(self).cells == old(self).cells
                &&& final(self).nb_cells == old(self).nb_cells
                &&& final(self).max_width == old(self).max_width
                &&& final(self).start_index == old(self).start_index
                &&& final(self).clip_end() == old(self).clip_end()
                &&& final(self).read_only == old(self).read_only
                &&& final(self).hash_cache_value() == old(self).hash_cache_value()
            },
    {
        if self.hash_unclipped_cache != 0 {
            return self.hash_unclipped_cache;
        }
        self.hash_unclipped_cache = hash_cells(&self.cells, 0, self.max_width);
        self.hash_unclipped_cache
    }

    pub fn width(&self) -> (w: usize)
        requires
            self.start_index <= self.clip_end(),
        ensures
            w == self.spec_width(),
    {
        self.width - self.start_index
    }

    pub fn max_width(&self) -> (w: usize)
        ensures
            w == self.max_width,
    {
        self.max_width
    }

    /// Gives the line `width` columns, keeps the content of the columns that
    /// remain, and resets the clipping and the fill counter.
    pub fn resize(&mut self, width: usize)
        ensures
            final(self).is_fresh(width),
            forall|i: int|
                0 <= i < width ==> #[trigger] final(self).cells@[i] == (if i < old(
                    self,
                ).cells@.len() {
                    old(self).cells@[i]
                } else {
                    LineCell::spec_new()
                }),
    {
        self.cells.resize(width, LineCell::new());
        self.nb_cells = 0;
        self.max_width = width;
        self.start_index = 0;
        self.width = width;
        self.read_only = false;
        self.hash_cache = 0;
        self.hash_unclipped_cache = 0;
    }

    /// Returns the (start_index, end) pair of the clipping window.
    pub fn clipping(&mut self) -> (r: (usize, usize))
        ensures
            r == (old(self).start_index, old(self).clip_end()),
            *final(self) == *old(self),
    {
        (self.start_index, self.width)
    }

    /// [ 0 <= start_index < width <= screen.max_width() ]
    pub fn set_clipping(&mut self, start_index: LineCellIndex, width: usize)
        requires
            start_index < old(self).max_width,
            width <= old(self).max_width,
            start_index + width <= old(self).max_width,
        ensures
            final(self).start_index == start_index,
            final(self).clip_end() == start_index + width,
            final(self).hash_cache_value() == 0,
            final(self).nb_cells == 0,
            !final(self).read_only,
            final(self).cells == old(self).cells,
            final(self).max_width == old(self).max_width,
            final(self).hash_unclipped_cache_value() == old(self).hash_unclipped_cache_value(),
            old(self).cells@.len() == old(self).max_width ==> final(self).wf(),
    {
        self.start_index = start_index;
        self.width = start_index + width;
        self.hash_cache = 0;
        self.nb_cells = 0;
        self.read_only = false;
    }

    pub fn clear_clip_width(&mut self)
        requires
            old(self).max_width > 0,
        ensures
            final(self).start_index == 0,
            final(self).clip_end() == old(self).max_width,
            final(self).hash_cache_value() == 0,
            final(self).nb_cells == 0,
            !final(self).read_only,
            final(self).cells == old(self).cells,
            final(self).max_width == old(self).max_width,
            final(self).hash_unclipped_cache_value() == old(self).hash_unclipped_cache_value(),
            old(self).cells@.len() == old(self).max_width ==> final(self).wf(),
    {
        let w = self.max_width;
        self.set_clipping(0, w);
    }

    pub fn capacity(&self) -> (c: usize)
        requires
            self.start_index <= self.clip_end(),
        ensures
            c == self.spec_width(),
    {
        self.width()
    }

    /// Number of cells of the window that are still free.
    pub fn available(&self) -> (a: usize)
        requires
            self.start_index <= self.clip_end(),
        ensures
            a == if self.spec_width() >= self.nb_cells {
                self.spec_width() - self.nb_cells
            } else {
                0
            },
    {
        if self.capacity() >= self.nb_cells {
            self.capacity() - self.nb_cells
        } else {
            0
        }
    }

    /// A push is accepted when the window has a free cell and the line is
    /// not read-only.
    pub open spec fn push_accepts(self) -> bool {
        self.nb_cells < self.spec_width() && !self.read_only
    }

    /// `after` is `self` once `cpi` was pushed, the read-only flag aside.
    pub open spec fn after_push(self, after: Line, cpi: CodepointInfo) -> bool {
        &&& after.wf()
        &&& after.max_width == self.max_width
        &&& after.start_index == self.start_index
        &&& after.clip_end() == self.clip_end()
        &&& after.hash_cache_value() == self.hash_cache_value()
        &&& after.hash_unclipped_cache_value() == self.hash_unclipped_cache_value()
        &&& if self.push_accepts() {
            &&& after.nb_cells == self.nb_cells + 1
            &&& after.cells@ == self.cells@.update(
                self.start_index + self.nb_cells,
                LineCell { cpi, is_used: true },
            )
        } else {
            &&& after.nb_cells == self.nb_cells
            &&& after.cells == self.cells
        }
    }

    /// Appends a cell after the used ones; the line becomes read-only once it
    /// is full, or once a push was refused.
    pub fn push(&mut self, cpi: CodepointInfo) -> (r: (bool, LineCellIndex))
        requires
            old(self).wf(),
            old(self).start_index == 0,
        ensures
            old(self).after_push(*final(self), cpi),
            r.0 == old(self).push_accepts(),
            r.1 == final(self).nb_cells,
            final(self).read_only == if r.0 {
                final(self).nb_cells == final(self).spec_width()
            } else {
                true
            },
    {
        if self.nb_cells < self.width() && !self.read_only {
            let idx = self.start_index + self.nb_cells;
            self.cells.set(idx, LineCell { cpi, is_used: true });
            self.nb_cells += 1;
            if self.nb_cells == self.width() {
                self.read_only = true;
            }
            (true, self.nb_cells)
        } else {
            self.read_only = true;
            (false, self.nb_cells)
        }
    }

    /// Empties the cells of the clipping window.
    pub fn clear(&mut self)
        requires
            old(self).wf(),
        ensures
            final(self).wf(),
            final(self).cells@.len() == old(self).cells@.len(),
            forall|i: int|
                0 <= i < old(self).cells@.len() ==> #[trigger] final(self).cells@[i] == if old(
                    self,
                ).start_index <= i < old(self).clip_end() {
                    LineCell::spec_new()
                } else {
                    old(self).cells@[i]
                },
            final(self).max_width == old(self).max_width,
            final(self).start_index == old(self).start_index,
            final(self).clip_end() == old(self).clip_end(),
            final(self).hash_cache_value() == 0,
            final(self).hash_unclipped_cache_value() == old(self).hash_unclipped_cache_value(),
            final(self).nb_cells == 0,
            !final(self).read_only,
    {
        let w = self.width();
        let mut i: usize = 0;
        while i < w
            invariant
                i <= w,
                w == old(self).spec_width(),
                self.wf(),
                self.cells@.len() == old(self).cells@.len(),
                self.start_index == old(self).start_index,
                self.width == old(self).width,
                self.max_width == old(self).max_width,
                self.nb_cells == old(self).nb_cells,
                self.hash_unclipped_cache == old(self).hash_unclipped_cache,
                forall|j: int|
                    0 <= j < old(self).cells@.len() ==> #[trigger] self.cells@[j] == if old(
                        self,
                    ).start_index <= j < old(self).start_index + i {
                        LineCell::spec_new()
                    } else {
                        old(self).cells@[j]
                    },
            decreases w - i,
        {
            let idx = self.start_index + i;
            self.cells.set(idx, LineCell::new());
            i = i + 1;
        }
        self.hash_cache = 0;
        self.nb_cells = 0;
        self.read_only = false;
    }

    pub fn get_first_cpi(&self) -> (r: Option<&CodepointInfo>)
        requires
            self.wf(),
        ensures
            self.start_index < self.clip_end() ==> r == Some(&self.cell_at(0).cpi),
            self.start_index >= self.clip_end() ==> r is None,
    {
        if self.start_index < self.width {
            Some(&self.cells[self.start_index].cpi)
        } else {
            None
        }
    }

    pub fn get_last_cpi(&self) -> (r: Option<&CodepointInfo>)
        requires
            self.wf(),
        ensures
            self.nb_cells > 0 ==> r == Some(&self.cell_at(self.nb_cells - 1).cpi),
            self.nb_cells == 0 ==> r is None,
    {
        if self.nb_cells > 0 {
            Some(&self.cells[self.start_index + self.nb_cells - 1].cpi)
        } else {
            None
        }
    }

    pub fn get_unclipped_cpi(&self, index: LineCellIndex) -> (r: Option<&CodepointInfo>)
        requires
            self.wf(),
        ensures
            index < self.max_width ==> r == Some(&self.cells@[index as int].cpi),
            index >= self.max_width ==> r is None,
    {
        if index < self.max_width() {
            Some(&self.cells[index].cpi)
        } else {
            None
        }
    }

    pub fn get_mut_unclipped_cpi(&mut self, index: LineCellIndex) -> (r: Option<&mut CodepointInfo>)
        requires
            old(self).wf(),
        ensures
            index < old(self).max_width ==> (r matches Some(c) && *c == old(self).cells@[index as int].cpi
                && final(self).cells@ == old(self).cells@.update(
                index as int,
                LineCell { cpi: *final(c), is_used: old(self).cells@[index as int].is_used },
            ) && final(self).same_layout(*old(self))),
            index >= old(self).max_width ==> r is None && *final(self) == *old(self),
    {
        if index < self.max_width() {
            Some(&mut self.cells[index].cpi)
        } else {
            None
        }
    }

    /// Everything but the cells is unchanged.
    pub open spec fn same_layout(self, other: Line) -> bool {
        &&& self.nb_cells == other.nb_cells
        &&& self.max_width == other.max_width
        &&& self.start_index == other.start_index
        &&& self.clip_end() == other.clip_end()
        &&& self.read_only == other.read_only
        &&& self.hash_cache_value() == other.hash_cache_value()
        &&& self.hash_unclipped_cache_value() == other.hash_unclipped_cache_value()
    }

    pub fn get_cpi(&self, index: LineCellIndex) -> (r: Option<&CodepointInfo>)
        requires
            self.wf(),
        ensures
            index < self.spec_width() ==> r == Some(&self.cell_at(index as int).cpi),
            index >= self.spec_width() ==> r is None,
    {
        if index < self.width() {
            Some(&self.cells[self.start_index + index].cpi)
        } else {
            None
        }
    }

    pub fn get_mut_cpi(&mut self, index: LineCellIndex) -> (r: Option<&mut CodepointInfo>)
        requires
            old(self).wf(),
        ensures
            index < old(self).spec_width() ==> (r matches Some(c) && *c == old(self).cell_at(
                index as int,
            ).cpi && final(self).cells@ == old(self).cells@.update(
                old(self).start_index + index,
                LineCell { cpi: *final(c), is_used: old(self).cell_at(index as int).is_used },
            ) && final(self).same_layout(*old(self))),
            index >= old(self).spec_width() ==> r is None && *final(self) == *old(self),
    {
        if index < self.width() {
            let idx = self.start_index + index;
            Some(&mut self.cells[idx].cpi)
        } else {
            None
        }
    }

    pub fn at(&mut self, index: LineCellIndex) -> (r: Option<&mut CodepointInfo>)
        requires
            old(self).wf(),
        ensures
            index < old(self).spec_width() ==> (r matches Some(c) && *c == old(self).cell_at(
                index as int,
            ).cpi && final(self).cells@ == old(self).cells@.update(
                old(self).start_index + index,
                LineCell { cpi: *final(c), is_used: old(self).cell_at(index as int).is_used },
            ) && final(self).same_layout(*old(self))),
            index >= old(self).spec_width() ==> r is None && *final(self) == *old(self),
    {
        self.get_mut_cpi(index)
    }

    pub fn get_used_cpi(&self, index: LineCellIndex) -> (r: Option<&CodepointInfo>)
        requires
            self.wf(),
        ensures
            index < self.nb_cells ==> r == Some(&self.cell_at(index as int).cpi),
            index >= self.nb_cells ==> r is None,
    {
        if index < self.nb_cells {
            self.get_cpi(index)
        } else {
            None
        }
    }

    pub fn get_mut_used_cpi(&mut self, index: LineCellIndex) -> (r: Option<&mut CodepointInfo>)
        requires
            old(self).wf(),
        ensures
            index < old(self).nb_cells ==> (r matches Some(c) && *c == old(self).cell_at(
                index as int,
            ).cpi && final(self).cells@ == old(self).cells@.update(
                old(self).start_index + index,
                LineCell { cpi: *final(c), is_used: old(self).cell_at(index as int).is_used },
            ) && final(self).same_layout(*old(self))),
            index >= old(self).nb_cells ==> r is None && *final(self) == *old(self),
    {
        if index < self.nb_cells {
            self.get_mut_cpi(index)
        } else {
            None
        }
    }

    /// The used cell at `index`, or the last used cell when `index` is past
    /// it, with the index actually read.
    pub fn get_used_cpi_clipped(&self, index: LineCellIndex) -> (r: (
        Option<&CodepointInfo>,
        LineCellIndex,
    ))
        requires
            self.wf(),
        ensures
            self.nb_cells == 0 ==> r == (None::<&CodepointInfo>, 0usize),
            self.nb_cells > 0 ==> {
                &&& r.1 == if index < self.nb_cells - 1 {
                    index
                } else {
                    (self.nb_cells - 1) as usize
                }
                &&& r.0 == Some(&self.cell_at(r.1 as int).cpi)
            },
    {
        if self.nb_cells == 0 {
            return (None, 0);
        }
        let last = self.nb_cells - 1;
        let index = if index < last {
            index
        } else {
            last
        };
        (self.get_used_cpi(index), index)
    }
}

} // verus!
