//! Expands a tabulation into the blanks that reach the next tab stop.

use vstd::prelude::*;

use crate::codec::scalar_char;
use crate::codec::u32_to_char;
use crate::codepointinfo::TextStyle;
use crate::view::layout::{ios, FilterData, FilterDataModel, FilterIo, FilterIoModel, LayoutEnv};

verus! {

/// The distance between two tab stops.
pub const TAB_SIZE: u64 = 8;

/// The number of blanks a tabulation at `column` expands to.
pub open spec fn tab_padding(column: int) -> int {
    TAB_SIZE - column % (TAB_SIZE as int)
}

/// Blank `k` of the expansion of the tabulation `io`: only the first one
/// stands for the document byte.
pub open spec fn tab_blank(io: FilterIoModel, k: int, color: (u8, u8, u8)) -> FilterIoModel {
    let blank = io.with_displayed(' ' as u32);
    FilterIoModel {
        style: TextStyle { color, ..io.style },
        size: if k == 0 { io.size } else { 0 },
        metadata: if k == 0 { io.metadata } else { true },
        ..blank
    }
}

/// One element through the filter, from `column` after the code point
/// `prev`: the column and previous code point after it, and what it gives.
pub open spec fn tab_step(column: int, prev: char, color: (u8, u8, u8), io: FilterIoModel) -> (
    int,
    char,
    Seq<FilterIoModel>,
) {
    match io.data {
        FilterDataModel::TextInfo { real_cp, .. } => {
            let c = scalar_char(real_cp);
            if c == '\t' {
                let p = tab_padding(column);
                (column + p, c, Seq::new(p as nat, |k: int| tab_blank(io, k, color)))
            } else if c == '\n' {
                (0, c, seq![io])
            } else {
                (column + 1, c, seq![io])
            }
        },
        _ => (column, prev, seq![io]),
    }
}

/// The elements `s` through the filter, element by element.
pub open spec fn tab_run(column: int, prev: char, color: (u8, u8, u8), s: Seq<FilterIoModel>) -> (
    int,
    char,
    Seq<FilterIoModel>,
)
    decreases s.len(),
{
    if s.len() == 0 {
        (column, prev, seq![])
    } else {
        let r = tab_run(column, prev, color, s.drop_last());
        let t = tab_step(r.0, r.1, color, s.last());
        (t.0, t.1, r.2 + t.2)
    }
}

/// A tabulation ends on a tab stop: it expands to one to eight blanks,
/// after which the column is a multiple of the tab size.
pub proof fn lemma_tab_reaches_tab_stop(column: int)
    requires
        column >= 0,
    ensures
        1 <= tab_padding(column) <= TAB_SIZE,
        (column + tab_padding(column)) % (TAB_SIZE as int) == 0,
{
}

/// Each element moves the column by at most a tab stop.
pub proof fn lemma_tab_run_column(column: int, prev: char, color: (u8, u8, u8), s: Seq<FilterIoModel>)
    requires
        column >= 0,
    ensures
        0 <= tab_run(column, prev, color, s).0 <= column + TAB_SIZE * s.len(),
    decreases s.len(),
{
    if s.len() > 0 {
        lemma_tab_run_column(column, prev, color, s.drop_last());
    }
}

pub struct TabFilter {
    prev_cp: char,
    column_count: u64,
    tab_color: (u8, u8, u8),
}

impl TabFilter {
    pub closed spec fn column(&self) -> u64 {
        self.column_count
    }

    pub closed spec fn previous(&self) -> char {
        self.prev_cp
    }

    pub closed spec fn color(&self) -> (u8, u8, u8) {
        self.tab_color
    }

    pub fn new() -> (f: TabFilter)
        ensures
            f.column() == 0,
            f.previous() == '\0',
            f.color() == (128u8, 75u8, 165u8),
    {
        TabFilter { prev_cp: '\0', column_count: 0, tab_color: (128, 75, 165) }
    }

    /// Starts a layout pass at column 0; a text display draws the blanks
    /// of a tabulation in magenta.
    pub fn setup(&mut self, env: &LayoutEnv)
        ensures
            final(self).column() == 0,
            final(self).previous() == '\0',
            final(self).color() == if env.graphic_display {
                old(self).color()
            } else {
                (128u8, 0u8, 128u8)
            },
    {
        self.prev_cp = '\0';
        self.column_count = 0;
        if !env.graphic_display {
            self.tab_color = (128, 0, 128);
        }
    }

    /// Appends to `filter_out` the elements of `filter_in`, each tabulation
    /// replaced by blanks up to the next tab stop.
    pub fn run(&mut self, filter_in: &[FilterIo], filter_out: &mut Vec<FilterIo>)
        requires
            old(self).column() + TAB_SIZE * filter_in@.len() <= u64::MAX,
        ensures
            ({
                let r = tab_run(
                    old(self).column() as int,
                    old(self).previous(),
                    old(self).color(),
                    ios(filter_in@),
                );
                &&& final(self).column() == r.0
                &&& final(self).previous() == r.1
                &&& final(self).color() == old(self).color()
                &&& ios(final(filter_out)@) == ios(old(filter_out)@) + r.2
            }),
    {
        let ghost c0 = self.column_count as int;
        let ghost p0 = self.prev_cp;
        let ghost color = self.tab_color;
        let ghost input = ios(filter_in@);
        let ghost out0 = ios(filter_out@);
        let n = filter_in.len();
        let mut i: usize = 0;
        while i < n
            invariant
                n == filter_in@.len(),
                input == ios(filter_in@),
                0 <= i <= n,
                c0 + TAB_SIZE * n <= u64::MAX,
                c0 >= 0,
                self.tab_color == color,
                ({
                    let r = tab_run(c0, p0, color, input.take(i as int));
                    &&& self.column_count == r.0
                    &&& self.prev_cp == r.1
                    &&& ios(filter_out@) == out0 + r.2
                }),
            decreases n - i,
        {
            proof {
                assert(input.take(i + 1).drop_last() =~= input.take(i as int));
                assert(input.take(i + 1).last() == filter_in@[i as int]@);
                lemma_tab_run_column(c0, p0, color, input.take(i as int));
                assert(c0 + TAB_SIZE * i + TAB_SIZE <= u64::MAX) by (nonlinear_arith)
                    requires
                        c0 + TAB_SIZE * n <= u64::MAX,
                        i < n,
                ;
            }
            let ghost before = ios(filter_out@);
            let io = &filter_in[i];
            if let FilterData::TextInfo { real_cp, .. } = &io.data {
                let codepoint = u32_to_char(*real_cp);
                if codepoint == '\t' {
                    self.prev_cp = '\t';
                    let padding: u64 = TAB_SIZE - (self.column_count % TAB_SIZE);
                    let mut k: u64 = 0;
                    while k < padding
                        invariant
                            0 <= k <= padding,
                            i < n,
                            n == filter_in@.len(),
                            padding == tab_padding(self.column_count as int),
                            self.tab_color == color,
                            io@ == filter_in@[i as int]@,
                            io@.data is TextInfo,
                            ios(filter_out@) == before + Seq::new(
                                k as nat,
                                |j: int| tab_blank(io@, j, color),
                            ),
                        decreases padding - k,
                    {
                        let mut new_io = FilterIo::replace_displayed_codepoint(io, ' ');
                        new_io.style.color = self.tab_color;
                        new_io.size = if k == 0 { io.size } else { 0 };
                        new_io.metadata = if k == 0 { io.metadata } else { true };
                        let ghost m = new_io@;
                        let ghost prev = filter_out@;
                        filter_out.push(new_io);
                        proof {
                            assert(m == tab_blank(io@, k as int, color));
                            assert(ios(filter_out@) =~= ios(prev).push(m));
                            assert(ios(filter_out@) =~= before + Seq::new(
                                (k + 1) as nat,
                                |j: int| tab_blank(io@, j, color),
                            ));
                        }
                        k = k + 1;
                    }
                    self.column_count = self.column_count + padding;
                } else {
                    if codepoint == '\n' {
                        self.column_count = 0;
                    } else {
                        self.column_count = self.column_count + 1;
                    }
                    self.prev_cp = codepoint;
                    let ghost m = io@;
                    let ghost prev = filter_out@;
                    filter_out.push(io.duplicate());
                    assert(ios(filter_out@) =~= ios(prev).push(m));
                }
            } else {
                let ghost m = io@;
                let ghost prev = filter_out@;
                filter_out.push(io.duplicate());
                assert(ios(filter_out@) =~= ios(prev).push(m));
            }
            i = i + 1;
        }
        assert(input.take(n as int) =~= input);
    }
}

} // verus!
