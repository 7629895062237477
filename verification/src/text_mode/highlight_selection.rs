//! Paints the background of the text between the main mark and the
//! selection point.

use vstd::prelude::*;

use super::text_mode::TextModeContext;
use crate::codec::TextCodec;
use crate::codepointinfo::TextStyle;
use crate::sort_tuple_pair;
use crate::view::layout::{ios, FilterIo, FilterIoModel, LayoutEnv};

verus! {

/// `io`, selected when its offset lies in `[start, end)`.
pub open spec fn highlighted(io: FilterIoModel, start: u64, end: u64, graphic: bool) -> FilterIoModel {
    match io.offset {
        Some(o) => if start <= o < end {
            FilterIoModel {
                style: TextStyle {
                    bg_color: if graphic {
                        TextStyle::spec_default_selected_bg_color()
                    } else {
                        (0u8, 0u8, 255u8)
                    },
                    is_selected: true,
                    ..io.style
                },
                ..io
            }
        } else {
            io
        },
        None => io,
    }
}

/// The main mark and the selection point of the view: the main mark twice
/// when there is not exactly one selection point.
pub open spec fn selection_ends<C: TextCodec>(tm: &TextModeContext<C>) -> (u64, u64) {
    let a = tm.marks@[tm.mark_index as int].offset;
    let b = if tm.select_point@.len() == 1 {
        tm.select_point@[0].offset
    } else {
        a
    };
    (a, b)
}

pub struct HighlightSelectionFilter {
    sel_start_offset: u64,
    sel_end_offset: u64,
    skip_filter: bool,
}

impl HighlightSelectionFilter {
    /// The selected range: from `start()` included to `end()` excluded.
    pub closed spec fn start(&self) -> u64 {
        self.sel_start_offset
    }

    pub closed spec fn end(&self) -> u64 {
        self.sel_end_offset
    }

    /// The filter lets everything through unchanged.
    pub closed spec fn skips(&self) -> bool {
        self.skip_filter
    }

    pub fn new() -> (f: HighlightSelectionFilter)
        ensures
            f.start() == 0,
            f.end() == 0,
            !f.skips(),
    {
        HighlightSelectionFilter { sel_start_offset: 0, sel_end_offset: 0, skip_filter: false }
    }

    /// Takes the range between the main mark and the selection point (the
    /// main mark alone when there is not exactly one selection point); an
    /// off-screen layout is not highlighted.
    pub fn setup<C: TextCodec>(&mut self, env: &LayoutEnv, tm: &TextModeContext<C>)
        requires
            tm.mark_index < tm.marks@.len(),
        ensures
            ({
                let (a, b) = selection_ends(tm);
                &&& final(self).start() == if a <= b {
                    a
                } else {
                    b
                }
                &&& final(self).end() == if a <= b {
                    b
                } else {
                    a
                }
            }),
            final(self).skips() == env.screen.is_off_screen,
    {
        let min = tm.marks[tm.mark_index].offset;
        let max = if tm.select_point.len() == 1 {
            tm.select_point[0].offset
        } else {
            min
        };
        let (min, max) = sort_tuple_pair((min, max));
        self.sel_start_offset = min;
        self.sel_end_offset = max;
        self.skip_filter = false;
        if env.screen.is_off_screen == true {
            self.skip_filter = true;
        }
    }

    /// Appends to `filter_out` the elements of `filter_in`, those in the
    /// selected range marked selected; when the filter skips or the view
    /// has no selection point, `filter_out` gets a copy of `filter_in`.
    pub fn run<C: TextCodec>(
        &mut self,
        env: &LayoutEnv,
        tm: &TextModeContext<C>,
        filter_in: &[FilterIo],
        filter_out: &mut Vec<FilterIo>,
    )
        ensures
            *final(self) == *old(self),
            if old(self).skips() || tm.select_point@.len() == 0 {
                ios(final(filter_out)@) == ios(filter_in@)
            } else {
                ios(final(filter_out)@) == ios(old(filter_out)@) + ios(filter_in@).map_values(
                    |io: FilterIoModel|
                        highlighted(io, old(self).start(), old(self).end(), env.graphic_display),
                )
            },
    {
        let ghost input = ios(filter_in@);
        let n = filter_in.len();
        if self.skip_filter == true || tm.select_point.len() == 0 {
            let mut copy: Vec<FilterIo> = Vec::new();
            let mut k: usize = 0;
            while k < n
                invariant
                    n == filter_in@.len(),
                    0 <= k <= n,
                    ios(copy@) == input.take(k as int),
                    input == ios(filter_in@),
                decreases n - k,
            {
                let ghost prev = copy@;
                copy.push(filter_in[k].duplicate());
                assert(ios(copy@) =~= input.take(k + 1)) by {
                    assert(ios(copy@) =~= ios(prev).push(filter_in@[k as int]@));
                }
                k = k + 1;
            }
            assert(input.take(n as int) =~= input);
            *filter_out = copy;
            return ;
        }
        let ghost out0 = ios(filter_out@);
        let ghost f = |io: FilterIoModel|
            highlighted(io, self.sel_start_offset, self.sel_end_offset, env.graphic_display);
        let mut i: usize = 0;
        while i < n
            invariant
                n == filter_in@.len(),
                input == ios(filter_in@),
                0 <= i <= n,
                f == (|io: FilterIoModel|
                    highlighted(io, self.sel_start_offset, self.sel_end_offset, env.graphic_display)),
                ios(filter_out@) == out0 + input.take(i as int).map_values(f),
            decreases n - i,
        {
            let io = &filter_in[i];
            let ghost prev = filter_out@;
            let mut copy = io.duplicate();
            if let Some(offset) = io.offset {
                if offset >= self.sel_start_offset && offset < self.sel_end_offset {
                    if env.graphic_display {
                        copy.style.bg_color = TextStyle::default_selected_bg_color();
                    } else {
                        copy.style.bg_color = (0, 0, 255);
                    }
                    copy.style.is_selected = true;
                }
            }
            let ghost m = copy@;
            filter_out.push(copy);
            assert(m == f(input[i as int]));
            assert(ios(filter_out@) =~= out0 + input.take(i + 1).map_values(f)) by {
                assert(ios(filter_out@) =~= ios(prev).push(m));
                assert(input.take(i + 1).map_values(f) =~= input.take(i as int).map_values(f).push(
                    f(input[i as int]),
                ));
            }
            i = i + 1;
        }
        assert(input.take(n as int) =~= input);
    }
}

} // verus!
