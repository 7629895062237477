//! The last content filter: puts the pipeline elements on the screen.

use vstd::prelude::*;

use crate::codec::scalar_char;
use crate::codec::u32_to_char;
use crate::codepointinfo::{CodepointInfo, TextStyle};
use crate::screen::screen::Screen;
use crate::view::layout::{ios, FilterData, FilterDataModel, FilterIo, FilterIoModel, LayoutEnv};

verus! {

/// The screen is filled from the first column of its clipping rectangle,
/// while it has a line left to fill.
pub open spec fn fills_from_column_zero(s: Screen) -> bool {
    s.current_line_index < s.spec_height() ==> s.clip.x == 0
}

/// The cell that marks the end of the document: `$`, or a blank when the
/// marker is not displayed.
pub open spec fn eof_cell(offset: Option<u64>, display_eof: bool) -> CodepointInfo {
    let c = if display_eof {
        '$'
    } else {
        ' '
    };
    CodepointInfo {
        used: true,
        metadata: true,
        cp: c,
        displayed_cp: c,
        offset,
        size: 0,
        skip_render: false,
        style: TextStyle { color: (255u8, 255u8, 0u8), ..TextStyle::spec_new() },
    }
}

/// The cell for the code point `cp` at `offset`, one byte of an array.
pub open spec fn array_cell(metadata: bool, cp: char, offset: int) -> CodepointInfo {
    CodepointInfo {
        used: true,
        metadata,
        cp,
        displayed_cp: cp,
        offset: Some(offset as u64),
        size: 1,
        skip_render: false,
        style: TextStyle::spec_new(),
    }
}

/// The cells an element asks to push, each with whether it is the end
/// marker.
pub open spec fn cells_of(io: FilterIoModel, display_eof: bool) -> Seq<(CodepointInfo, bool)> {
    match io.data {
        FilterDataModel::TextInfo { real_cp, displayed_cp } => seq![
            (
                CodepointInfo {
                    used: true,
                    metadata: io.metadata,
                    cp: scalar_char(real_cp),
                    displayed_cp: scalar_char(displayed_cp),
                    offset: io.offset,
                    size: io.size,
                    skip_render: false,
                    style: io.style,
                },
                false,
            ),
        ],
        FilterDataModel::EndOfStream => seq![(eof_cell(io.offset, display_eof), true)],
        FilterDataModel::UnicodeArray(v) => Seq::new(
            v.len(),
            |j: int| (array_cell(io.metadata, scalar_char(v[j].cp), io.offset->0 + j), false),
        ),
        FilterDataModel::ByteArray(v) => Seq::new(
            v.len(),
            |j: int| (array_cell(io.metadata, scalar_char(v[j] as u32), io.offset->0 + j), false),
        ),
        FilterDataModel::CustomLimitReached => seq![],
    }
}

/// Some element of `s` is the limit marker.
pub open spec fn has_limit(s: Seq<FilterIoModel>) -> bool {
    exists|k: int| 0 <= k < s.len() && (#[trigger] s[k]).data is CustomLimitReached
}

/// The cells the elements `s` ask to push, up to the first limit marker.
pub open spec fn fill_cells(s: Seq<FilterIoModel>, display_eof: bool) -> Seq<(CodepointInfo, bool)>
    decreases s.len(),
{
    if s.len() == 0 {
        seq![]
    } else if has_limit(s.drop_last()) {
        fill_cells(s.drop_last(), display_eof)
    } else {
        fill_cells(s.drop_last(), display_eof) + cells_of(s.last(), display_eof)
    }
}

/// `b` is `a` once the cell was pushed and, for the end marker that went
/// through, the screen noted that it shows the end of the document.
pub open spec fn push_step(a: Screen, b: Screen, cell: (CodepointInfo, bool)) -> bool {
    let r = (b.current_line_index < b.spec_height(), b.current_line_index);
    &&& Screen::push_post(a, Screen { has_eof: a.has_eof, ..b }, cell.0, r)
    &&& b.has_eof == (a.has_eof || (cell.1 && r.0))
}

/// `trace` is the screen before each of the `cells` was pushed, then after
/// the last one.
pub open spec fn fill_trace(trace: Seq<Screen>, cells: Seq<(CodepointInfo, bool)>) -> bool {
    &&& trace.len() == cells.len() + 1
    &&& forall|k: int| 0 <= k < cells.len() ==> push_step(trace[k], #[trigger] trace[k + 1], cells[k])
}

/// `f` is `o` once the `cells` were pushed in order.
pub open spec fn filled(o: Screen, f: Screen, cells: Seq<(CodepointInfo, bool)>) -> bool {
    exists|trace: Seq<Screen>| fill_trace(trace, cells) && trace[0] == o && trace.last() == f
}

/// The elements the filter accepts: text that stands for document bytes
/// exactly when it is not metadata, arrays of document bytes at a known
/// offset, of valid code points.
pub open spec fn fill_accepts(io: FilterIoModel) -> bool {
    match io.data {
        FilterDataModel::TextInfo { .. } => io.size_matches_metadata(),
        FilterDataModel::UnicodeArray(v) => {
            &&& io.offset is Some
            &&& !io.metadata
            &&& io.offset->0 + v.len() <= u64::MAX
            &&& forall|j: int|
                0 <= j < v.len() ==> crate::codec::is_scalar(#[trigger] v[j].cp)
        },
        FilterDataModel::ByteArray(v) => {
            &&& io.offset is Some
            &&& !io.metadata
            &&& io.offset->0 + v.len() <= u64::MAX
        },
        _ => true,
    }
}

/// No text element comes before the last offset put on screen: `last`
/// for the first one, then the offset of the previous text element, or the
/// end of the previous array.
pub open spec fn offsets_ordered(last: Option<u64>, s: Seq<FilterIoModel>) -> bool
    decreases s.len(),
{
    if s.len() == 0 {
        true
    } else {
        let io = s[0];
        match io.data {
            FilterDataModel::TextInfo { .. } => {
                &&& (last matches Some(p) && io.offset matches Some(o) ==> p <= o)
                &&& offsets_ordered(io.offset, s.drop_first())
            },
            FilterDataModel::UnicodeArray(v) => offsets_ordered(
                Some((io.offset->0 + v.len()) as u64),
                s.drop_first(),
            ),
            FilterDataModel::ByteArray(v) => offsets_ordered(
                Some((io.offset->0 + v.len()) as u64),
                s.drop_first(),
            ),
            _ => offsets_ordered(last, s.drop_first()),
        }
    }
}

/// `a` is no later than `b`, an unknown offset being before any.
pub open spec fn offset_le(a: Option<u64>, b: Option<u64>) -> bool {
    match (a, b) {
        (Some(x), Some(y)) => x <= y,
        (Some(_), None) => false,
        (None, _) => true,
    }
}

proof fn lemma_fill_prefix(s: Seq<FilterIoModel>, i: int, eof: bool)
    requires
        0 <= i <= s.len(),
    ensures
        fill_cells(s.take(i), eof).len() <= fill_cells(s, eof).len(),
        fill_cells(s.take(i), eof) == fill_cells(s, eof).take(fill_cells(s.take(i), eof).len() as int),
        has_limit(s.take(i)) ==> fill_cells(s, eof) == fill_cells(s.take(i), eof),
    decreases s.len(),
{
    if i == s.len() {
        assert(s.take(i) =~= s);
    } else {
        assert(s.drop_last().take(i) =~= s.take(i));
        lemma_fill_prefix(s.drop_last(), i, eof);
        if has_limit(s.take(i)) {
            let k = choose|k: int| 0 <= k < s.take(i).len() && (#[trigger] s.take(i)[k]).data is CustomLimitReached;
            assert(s.drop_last()[k] == s.take(i)[k]);
        }
        let p = fill_cells(s.drop_last(), eof);
        let q = fill_cells(s.take(i), eof);
        assert(q =~= p.take(q.len() as int));
        assert(fill_cells(s, eof).take(q.len() as int) =~= p.take(q.len() as int));
    }
}

/// Whether each push of a trace went through: the screen after it still
/// had a line to fill.
pub open spec fn pushes_accepted(trace: Seq<Screen>) -> Seq<bool> {
    Seq::new(
        (trace.len() - 1) as nat,
        |k: int| trace[k + 1].current_line_index < trace[k + 1].spec_height(),
    )
}

/// How many pushes went through before the first refused one.
pub open spec fn leading_accepted(s: Seq<bool>) -> nat
    decreases s.len(),
{
    if s.len() == 0 || !s[0] {
        0
    } else {
        1 + leading_accepted(s.drop_first())
    }
}

/// The offset the filter keeps as the last one put on the screen, from
/// `last`, once the elements `s` were put there, `acc` saying whether
/// each of their cells went through: a text element that went through
/// gives its offset; an array at `o` gives `o` and the number of its cells
/// that went through before the first refused one; a refused text element
/// or end marker, or a limit marker, ends the pass.
pub open spec fn last_after(last: Option<u64>, s: Seq<FilterIoModel>, acc: Seq<bool>) -> Option<u64>
    decreases s.len(),
{
    if s.len() == 0 {
        last
    } else {
        let io = s[0];
        match io.data {
            FilterDataModel::CustomLimitReached => last,
            FilterDataModel::EndOfStream => if acc.len() > 0 && acc[0] {
                last_after(last, s.drop_first(), acc.drop_first())
            } else {
                last
            },
            FilterDataModel::TextInfo { .. } => if acc.len() > 0 && acc[0] {
                last_after(io.offset, s.drop_first(), acc.drop_first())
            } else {
                last
            },
            FilterDataModel::UnicodeArray(v) => last_after(
                Some((io.offset->0 + leading_accepted(acc.take(v.len() as int))) as u64),
                s.drop_first(),
                acc.skip(v.len() as int),
            ),
            FilterDataModel::ByteArray(v) => last_after(
                Some((io.offset->0 + leading_accepted(acc.take(v.len() as int))) as u64),
                s.drop_first(),
                acc.skip(v.len() as int),
            ),
        }
    }
}

/// `f` is `o` once the `cells` of the elements `input` were pushed in
/// order, and `last1` is what the filter then keeps as the last offset,
/// from `last0` (see `last_after`).
pub open spec fn filled_from(
    o: Screen,
    f: Screen,
    cells: Seq<(CodepointInfo, bool)>,
    input: Seq<FilterIoModel>,
    last0: Option<u64>,
    last1: Option<u64>,
) -> bool {
    exists|trace: Seq<Screen>|
        #![trigger fill_trace(trace, cells)]
        fill_trace(trace, cells) && trace[0] == o && trace.last() == f && last1 == last_after(
            last0,
            input,
            pushes_accepted(trace),
        )
}

proof fn lemma_leading(s: Seq<bool>, j: int)
    requires
        0 <= j <= s.len(),
        forall|k: int| 0 <= k < j ==> s[k],
        j < s.len() ==> !s[j],
    ensures
        leading_accepted(s) == j,
    decreases j,
{
    if j > 0 {
        assert(s[0]);
        lemma_leading(s.drop_first(), j - 1);
    }
}

proof fn lemma_accepted_push(trace: Seq<Screen>, s: Screen)
    requires
        trace.len() >= 1,
    ensures
        pushes_accepted(trace.push(s)) == pushes_accepted(trace).push(s.current_line_index < s.spec_height()),
{
    assert(pushes_accepted(trace.push(s)) =~= pushes_accepted(trace).push(
        s.current_line_index < s.spec_height(),
    ));
}

/// Moving pushes that went through (`xs`) from the trace to the part of
/// the pass still to come.
proof fn lemma_last_after_shift(
    last0: Option<u64>,
    input: Seq<FilterIoModel>,
    pa: Seq<bool>,
    xs: Seq<bool>,
    lo: Option<u64>,
    s_i: Seq<FilterIoModel>,
)
    requires
        forall|rest: Seq<bool>| #[trigger] last_after(last0, input, pa + rest) == last_after(lo, s_i, rest),
    ensures
        forall|rest: Seq<bool>|
            #[trigger] last_after(last0, input, (pa + xs) + rest) == last_after(lo, s_i, xs + rest),
{
    assert forall|rest: Seq<bool>| #[trigger] last_after(last0, input, (pa + xs) + rest) == last_after(
        lo,
        s_i,
        xs + rest,
    ) by {
        assert((pa + xs) + rest =~= pa + (xs + rest));
        assert(last_after(last0, input, pa + (xs + rest)) == last_after(lo, s_i, xs + rest));
    }
}

proof fn lemma_leading_le(s: Seq<bool>)
    ensures
        leading_accepted(s) <= s.len(),
    decreases s.len(),
{
    if s.len() > 0 && s[0] {
        lemma_leading_le(s.drop_first());
    }
}

/// Two traces that follow each other make one.
proof fn lemma_trace_concat(
    t1: Seq<Screen>,
    c1: Seq<(CodepointInfo, bool)>,
    t2: Seq<Screen>,
    c2: Seq<(CodepointInfo, bool)>,
)
    requires
        fill_trace(t1, c1),
        fill_trace(t2, c2),
        t1.last() == t2[0],
    ensures
        fill_trace(t1 + t2.skip(1), c1 + c2),
        (t1 + t2.skip(1))[0] == t1[0],
        (t1 + t2.skip(1)).last() == t2.last(),
        pushes_accepted(t1 + t2.skip(1)) == pushes_accepted(t1) + pushes_accepted(t2),
{
    let t = t1 + t2.skip(1);
    let n1 = c1.len() as int;
    assert forall|k: int| 0 <= k < (c1 + c2).len() implies push_step(t[k], #[trigger] t[k + 1], (c1 + c2)[k]) by {
        if k < n1 {
            assert(t[k] == t1[k] && t[k + 1] == t1[k + 1]);
        } else {
            assert(t[k] == t2[k - n1]);
            assert(t[k + 1] == t2[k + 1 - n1]);
            assert((c1 + c2)[k] == c2[k - n1]);
        }
    }
    assert(pushes_accepted(t) =~= pushes_accepted(t1) + pushes_accepted(t2));
}

pub(crate) proof fn lemma_full_steps(s: Screen, cells: Seq<(CodepointInfo, bool)>)
    requires
        s.wf(),
        s.current_line_index == s.spec_height(),
    ensures
        forall|k: int| 0 <= k < cells.len() ==> push_step(s, s, #[trigger] cells[k]),
{
    assert forall|k: int| 0 <= k < cells.len() implies push_step(s, s, #[trigger] cells[k]) by {
        assert(Screen { has_eof: s.has_eof, ..s } == s);
    }
}

/// Extends the trace with pushes on a full screen, which change nothing.
pub(crate) proof fn lemma_trace_full(
    trace: Seq<Screen>,
    cells: Seq<(CodepointInfo, bool)>,
    more: Seq<(CodepointInfo, bool)>,
) -> (t: Seq<Screen>)
    requires
        fill_trace(trace, cells),
        trace.last().wf(),
        trace.last().current_line_index == trace.last().spec_height(),
    ensures
        fill_trace(t, cells + more),
        t[0] == trace[0],
        t.last() == trace.last(),
        t.len() == trace.len() + more.len(),
        pushes_accepted(t) == pushes_accepted(trace) + Seq::new(more.len(), |_k: int| false),
{
    let s = trace.last();
    lemma_full_steps(s, more);
    let t = trace + Seq::new(more.len(), |_k: int| s);
    assert forall|k: int| 0 <= k < (cells + more).len() implies push_step(
        t[k],
        #[trigger] t[k + 1],
        (cells + more)[k],
    ) by {
        if k < cells.len() {
            assert(t[k] == trace[k] && t[k + 1] == trace[k + 1]);
        } else {
            assert(t[k] == s && t[k + 1] == s);
            assert((cells + more)[k] == more[k - cells.len()]);
        }
    }
    assert(pushes_accepted(t) =~= pushes_accepted(trace) + Seq::new(more.len(), |_k: int| false));
    t
}

pub struct ScreenFilter {
    first_offset: Option<u64>,
    last_offset: Option<u64>,
    screen_is_full: bool,
    pub display_eof: bool,
}

impl ScreenFilter {
    /// The offset of the last cell put on the screen.
    pub closed spec fn last(&self) -> Option<u64> {
        self.last_offset
    }

    /// The offset the layout pass started from, when it was given.
    pub closed spec fn first(&self) -> Option<u64> {
        self.first_offset
    }

    /// Whether the end marker shows `$`.
    pub closed spec fn shows_eof(&self) -> bool {
        self.display_eof
    }

    pub fn new() -> (f: ScreenFilter)
        ensures
            f.first() is None,
            f.last() is None,
            f.shows_eof(),
    {
        ScreenFilter { first_offset: None, last_offset: None, screen_is_full: false, display_eof: true }
    }

    /// Starts a layout pass: nothing was put on the screen yet.
    pub fn setup(&mut self)
        ensures
            final(self).first() is None,
            final(self).last() is None,
            final(self).shows_eof() == old(self).shows_eof(),
    {
        self.first_offset = None;
        self.last_offset = None;
        self.screen_is_full = false;
    }

    /// Pushes a cell; a refused push ends the layout pass.
    fn add_text_to_screen(&mut self, env: &mut LayoutEnv, cpi: CodepointInfo) -> (ok: bool)
        requires
            old(env).screen.wf(),
            fills_from_column_zero(old(env).screen),
            old(env).screen.push_count < usize::MAX,
            cpi.metadata <==> cpi.size == 0,
        ensures
            Screen::push_post(
                old(env).screen,
                final(env).screen,
                cpi,
                (ok, final(env).screen.current_line_index),
            ),
            final(env).quit == (old(env).quit || !ok),
            final(env).graphic_display == old(env).graphic_display,
            final(env).base_offset == old(env).base_offset,
            final(env).max_offset == old(env).max_offset,
            final(env).active_view_id == old(env).active_view_id,
            final(env).current_view_id == old(env).current_view_id,
            *final(self) == *old(self),
    {
        let ret = env.screen.push(cpi);
        if !ret.0 {
            env.quit = true;
            return false;
        }
        true
    }

    /// Puts the cells of the array element `io` on the screen, one per
    /// byte or code point at the offsets that follow the element's, until
    /// the screen refuses one; the filter then keeps as the last offset
    /// the element's offset and the number of cells that went through.
    fn put_array(&mut self, env: &mut LayoutEnv, io: &FilterIo) -> (t: Ghost<Seq<Screen>>)
        requires
            old(env).screen.wf(),
            fills_from_column_zero(old(env).screen),
            io@.data is UnicodeArray || io@.data is ByteArray,
            fill_accepts(io@),
            old(env).screen.push_count + cells_of(io@, old(self).shows_eof()).len() <= usize::MAX,
        ensures
            ({
                let cells = cells_of(io@, old(self).shows_eof());
                &&& fill_trace(t@, cells)
                &&& t@[0] == old(env).screen
                &&& t@.last() == final(env).screen
                &&& final(self).last() == Some((io@.offset->0 + leading_accepted(pushes_accepted(t@))) as u64)
                &&& final(env).screen.push_count <= old(env).screen.push_count + cells.len()
                &&& final(env).quit == (old(env).quit || (cells.len() > 0
                    && final(env).screen.current_line_index == final(env).screen.spec_height()))
            }),
            final(self).first() == old(self).first(),
            final(self).shows_eof() == old(self).shows_eof(),
            final(env).screen.wf(),
            fills_from_column_zero(final(env).screen),
            final(env).screen.spec_height() == old(env).screen.spec_height(),
            old(env).screen.current_line_index == old(env).screen.spec_height()
                ==> final(env).screen.current_line_index == final(env).screen.spec_height(),
            final(env).graphic_display == old(env).graphic_display,
            final(env).base_offset == old(env).base_offset,
            final(env).max_offset == old(env).max_offset,
            final(env).active_view_id == old(env).active_view_id,
            final(env).current_view_id == old(env).current_view_id,
    {
        let ghost s0 = env.screen;
        let ghost h = env.screen.spec_height();
        let ghost cells = cells_of(io@, self.display_eof);
        let ghost mut trace: Seq<Screen> = seq![env.screen];
        match &io.data {
                FilterData::UnicodeArray { vec } => {
                    let base = io.offset.unwrap();
                    let mut cur_offset = base;
                    let m = vec.len();
                    let mut j: usize = 0;
                    let mut failed = false;
                    proof {
                        assert(io@.data == FilterDataModel::UnicodeArray(vec@));
                        assert(cells.take(0) =~= Seq::<(CodepointInfo, bool)>::empty());
                    }
                    while j < m && !failed
                        invariant
                            m == vec@.len(),
                            0 <= j <= m,
                            failed ==> j < m && env.screen.current_line_index == h,
                            cells == cells_of(io@, old(self).shows_eof()),
                            cells.len() == m,
                            fill_accepts(io@),
                            io@.data == FilterDataModel::UnicodeArray(vec@),
                            io.offset == Some(base),
                            cur_offset == base + j,
                            trace.len() == j + 1 + (if failed {
                                1int
                            } else {
                                0int
                            }),
                            fill_trace(trace, cells.take(trace.len() - 1)),
                            trace[0] == s0,
                            trace.last() == env.screen,
                            env.screen.wf(),
                            fills_from_column_zero(env.screen),
                            env.screen.spec_height() == h,
                            env.screen.push_count <= s0.push_count + j,
                            s0.push_count + m <= usize::MAX,
                            env.quit == (old(env).quit || failed),
                            env.graphic_display == old(env).graphic_display,
                            env.base_offset == old(env).base_offset,
                            env.max_offset == old(env).max_offset,
                            env.active_view_id == old(env).active_view_id,
                            env.current_view_id == old(env).current_view_id,
                            *self == *old(self),
                            forall|k: int| 0 <= k < j ==> pushes_accepted(trace)[k],
                            failed ==> !pushes_accepted(trace)[j as int],
                            !failed ==> (j > 0 ==> env.screen.current_line_index < h),
                            !failed && j == 0 ==> env.screen == s0,
                            s0.current_line_index == h ==> env.screen.current_line_index == h,
                        decreases m - j - (if failed {
                            1int
                        } else {
                            0int
                        }),
                    {
                        let c = vec[j].cp;
                        let cp = u32_to_char(c);
                        let cpi = CodepointInfo {
                            used: true,
                            metadata: io.metadata,
                            cp,
                            displayed_cp: cp,
                            offset: Some(cur_offset),
                            size: 1,
                            skip_render: false,
                            style: TextStyle::new(),
                        };
                        let ghost a = env.screen;
                        let ghost tb = trace;
                        let ok = self.add_text_to_screen(env, cpi);
                        proof {
                            assert(cells[j as int].0 == cpi);
                            assert(Screen { has_eof: a.has_eof, ..env.screen } == env.screen);
                            assert(push_step(a, env.screen, cells[j as int]));
                            trace = trace.push(env.screen);
                            assert(cells.take(trace.len() - 1) =~= cells.take(tb.len() - 1).push(cells[j as int]));
                            lemma_accepted_push(tb, env.screen);
                        }
                        if !ok {
                            failed = true;
                        } else {
                            cur_offset = cur_offset + 1;
                            j = j + 1;
                        }
                    }
                    proof {
                        let acc0 = pushes_accepted(trace);
                        if failed {
                            let done = cells.take(trace.len() - 1);
                            let more = cells.skip(done.len() as int);
                            trace = lemma_trace_full(trace, done, more);
                            assert(done + more =~= cells);
                        } else {
                            assert(cells.take(m as int) =~= cells);
                        }
                        assert(pushes_accepted(trace).len() == m);
                        assert forall|k: int| 0 <= k < j implies pushes_accepted(trace)[k] by {
                            assert(pushes_accepted(trace)[k] == acc0[k]);
                        }
                        if failed {
                            assert(pushes_accepted(trace)[j as int] == acc0[j as int]);
                        }
                        lemma_leading(pushes_accepted(trace), j as int);
                    }
                    self.last_offset = Some(cur_offset);
                    Ghost(trace)
                },
                FilterData::ByteArray { vec } => {
                    let base = io.offset.unwrap();
                    let mut cur_offset = base;
                    let m = vec.len();
                    let mut j: usize = 0;
                    let mut failed = false;
                    proof {
                        assert(io@.data == FilterDataModel::ByteArray(vec@));
                        assert(cells.take(0) =~= Seq::<(CodepointInfo, bool)>::empty());
                    }
                    while j < m && !failed
                        invariant
                            m == vec@.len(),
                            0 <= j <= m,
                            failed ==> j < m && env.screen.current_line_index == h,
                            cells == cells_of(io@, old(self).shows_eof()),
                            cells.len() == m,
                            fill_accepts(io@),
                            io@.data == FilterDataModel::ByteArray(vec@),
                            io.offset == Some(base),
                            cur_offset == base + j,
                            trace.len() == j + 1 + (if failed {
                                1int
                            } else {
                                0int
                            }),
                            fill_trace(trace, cells.take(trace.len() - 1)),
                            trace[0] == s0,
                            trace.last() == env.screen,
                            env.screen.wf(),
                            fills_from_column_zero(env.screen),
                            env.screen.spec_height() == h,
                            env.screen.push_count <= s0.push_count + j,
                            s0.push_count + m <= usize::MAX,
                            env.quit == (old(env).quit || failed),
                            env.graphic_display == old(env).graphic_display,
                            env.base_offset == old(env).base_offset,
                            env.max_offset == old(env).max_offset,
                            env.active_view_id == old(env).active_view_id,
                            env.current_view_id == old(env).current_view_id,
                            *self == *old(self),
                            forall|k: int| 0 <= k < j ==> pushes_accepted(trace)[k],
                            failed ==> !pushes_accepted(trace)[j as int],
                            !failed ==> (j > 0 ==> env.screen.current_line_index < h),
                            !failed && j == 0 ==> env.screen == s0,
                            s0.current_line_index == h ==> env.screen.current_line_index == h,
                        decreases m - j - (if failed {
                            1int
                        } else {
                            0int
                        }),
                    {
                        let c = vec[j] as u32;
                        let cp = u32_to_char(c);
                        let cpi = CodepointInfo {
                            used: true,
                            metadata: io.metadata,
                            cp,
                            displayed_cp: cp,
                            offset: Some(cur_offset),
                            size: 1,
                            skip_render: false,
                            style: TextStyle::new(),
                        };
                        let ghost a = env.screen;
                        let ghost tb = trace;
                        let ok = self.add_text_to_screen(env, cpi);
                        proof {
                            assert(cells[j as int].0 == cpi);
                            assert(Screen { has_eof: a.has_eof, ..env.screen } == env.screen);
                            assert(push_step(a, env.screen, cells[j as int]));
                            trace = trace.push(env.screen);
                            assert(cells.take(trace.len() - 1) =~= cells.take(tb.len() - 1).push(cells[j as int]));
                            lemma_accepted_push(tb, env.screen);
                        }
                        if !ok {
                            failed = true;
                        } else {
                            cur_offset = cur_offset + 1;
                            j = j + 1;
                        }
                    }
                    proof {
                        let acc0 = pushes_accepted(trace);
                        if failed {
                            let done = cells.take(trace.len() - 1);
                            let more = cells.skip(done.len() as int);
                            trace = lemma_trace_full(trace, done, more);
                            assert(done + more =~= cells);
                        } else {
                            assert(cells.take(m as int) =~= cells);
                        }
                        assert(pushes_accepted(trace).len() == m);
                        assert forall|k: int| 0 <= k < j implies pushes_accepted(trace)[k] by {
                            assert(pushes_accepted(trace)[k] == acc0[k]);
                        }
                        if failed {
                            assert(pushes_accepted(trace)[j as int] == acc0[j as int]);
                        }
                        lemma_leading(pushes_accepted(trace), j as int);
                    }
                    self.last_offset = Some(cur_offset);
                    Ghost(trace)
                },
            _ => {
                Ghost(trace)
            },
        }
    }

    /// Puts the elements of `filter_in` on the screen, up to the first limit
    /// marker, and ends the layout pass when that marker comes or when the
    /// screen refuses a cell.
    ///
    /// A full screen refuses every cell without changing, so the screen is
    /// the one that pushing all those cells in order gives. The filter then
    /// keeps as the last offset the one of the last text element that went
    /// through, or the end of the part of the last array that went through
    /// (see `last_after`); the first offset stays.
    #[verifier::spinoff_prover]
    #[verifier::rlimit(100)]
    pub fn run(&mut self, env: &mut LayoutEnv, filter_in: &[FilterIo])
        requires
            old(env).screen.wf(),
            fills_from_column_zero(old(env).screen),
            old(env).screen.push_count + fill_cells(ios(filter_in@), old(self).shows_eof()).len()
                <= usize::MAX,
            forall|k: int| 0 <= k < filter_in@.len() ==> fill_accepts(#[trigger] filter_in@[k]@),
            offsets_ordered(old(self).last(), ios(filter_in@)),
        ensures
            ({
                let cells = fill_cells(ios(filter_in@), old(self).shows_eof());
                &&& filled(old(env).screen, final(env).screen, cells)
                &&& final(env).quit == (old(env).quit || has_limit(ios(filter_in@)) || (cells.len()
                    > 0 && final(env).screen.current_line_index == final(env).screen.spec_height()))
            }),
            final(env).graphic_display == old(env).graphic_display,
            final(env).base_offset == old(env).base_offset,
            final(env).max_offset == old(env).max_offset,
            final(env).active_view_id == old(env).active_view_id,
            final(env).current_view_id == old(env).current_view_id,
            final(self).shows_eof() == old(self).shows_eof(),
            final(self).first() == old(self).first(),
            filled_from(
                old(env).screen,
                final(env).screen,
                fill_cells(ios(filter_in@), old(self).shows_eof()),
                ios(filter_in@),
                old(self).last(),
                final(self).last(),
            ),
    {
        let ghost s0 = env.screen;
        let ghost last0 = self.last_offset;
        let ghost first0 = self.first_offset;
        let ghost q0 = env.quit;
        let ghost pc0 = env.screen.push_count;
        let ghost eof = self.display_eof;
        let ghost input = ios(filter_in@);
        let ghost all_cells = fill_cells(input, eof);
        let ghost h = env.screen.spec_height();
        let ghost mut trace: Seq<Screen> = seq![env.screen];
        let ghost mut done: Seq<(CodepointInfo, bool)> = seq![];
        let ghost mut bound: Option<u64> = self.last_offset;
        env.screen.check_invariants();
        let n = filter_in.len();
        let mut i: usize = 0;
        let mut stopped = false;
        assert(input.skip(0) =~= input);
        assert(input.take(0) =~= Seq::<FilterIoModel>::empty());
        while i < n && !stopped
            invariant
                n == filter_in@.len(),
                input == ios(filter_in@),
                all_cells == fill_cells(input, eof),
                0 <= i <= n,
                !stopped ==> !has_limit(input.take(i as int)),
                stopped ==> has_limit(input.take(i as int)) || (done.len() > 0
                    && env.screen.current_line_index == h),
                forall|k: int| 0 <= k < filter_in@.len() ==> fill_accepts(#[trigger] filter_in@[k]@),
                self.display_eof == eof,
                done == fill_cells(input.take(i as int), eof),
                fill_trace(trace, done),
                trace[0] == s0,
                trace.last() == env.screen,
                env.screen.wf(),
                fills_from_column_zero(env.screen),
                env.screen.spec_height() == h,
                env.screen.push_count <= pc0 + done.len(),
                pc0 + all_cells.len() <= usize::MAX,
                env.quit == (q0 || has_limit(input.take(i as int)) || (done.len() > 0
                    && env.screen.current_line_index == h)),
                env.graphic_display == old(env).graphic_display,
                env.base_offset == old(env).base_offset,
                env.max_offset == old(env).max_offset,
                env.active_view_id == old(env).active_view_id,
                env.current_view_id == old(env).current_view_id,
                !stopped ==> offsets_ordered(bound, input.skip(i as int)),
                !stopped ==> offset_le(self.last_offset, bound),
                self.first_offset == first0,
                !stopped ==> forall|rest: Seq<bool>|
                    #[trigger] last_after(last0, input, pushes_accepted(trace) + rest) == last_after(
                        self.last_offset,
                        input.skip(i as int),
                        rest,
                    ),
                stopped ==> forall|rest: Seq<bool>|
                    #[trigger] last_after(last0, input, pushes_accepted(trace) + rest) == self.last_offset,
            decreases n - i,
        {
            proof {
                assert(input.take(i + 1).drop_last() =~= input.take(i as int));
                assert(input.take(i + 1).last() == filter_in@[i as int]@);
                assert(input.skip(i as int)[0] == filter_in@[i as int]@);
                assert(input.skip(i as int).drop_first() =~= input.skip(i + 1));
                lemma_fill_prefix(input, i + 1, eof);
                assert(fill_accepts(filter_in@[i as int]@));
            }
            let io = &filter_in[i];
            let ghost cells = cells_of(io@, eof);
            let ghost lo = self.last_offset;
            let ghost pa = pushes_accepted(trace);
            let ghost t0 = trace;
            let ghost s_i = input.skip(i as int);
            assert(s_i[0] == io@ && s_i.len() > 0);
            assert(s_i.drop_first() == input.skip(i + 1));
            match &io.data {
                FilterData::CustomLimitReached => {
                    env.quit = true;
                    proof {
                        assert(input.take(i + 1)[i as int].data is CustomLimitReached);
                        assert(has_limit(input.take(i + 1)));
                        assert(cells =~= seq![]);
                        assert(done + cells =~= done);
                        assert(has_limit(input));
                        assert forall|rest: Seq<bool>|
                            #[trigger] last_after(last0, input, pushes_accepted(trace) + rest)
                                == self.last_offset by {
                            assert(last_after(lo, s_i, rest) == lo);
                        }
                    }
                    stopped = true;
                },
                FilterData::EndOfStream => {
                    let mut style = TextStyle::new();
                    style.color = (255, 255, 0);
                    let eof_char = if self.display_eof {
                        '$'
                    } else {
                        ' '
                    };
                    let eof_cpi = CodepointInfo {
                        used: true,
                        metadata: true,
                        cp: eof_char,
                        displayed_cp: eof_char,
                        offset: io.offset,
                        size: 0,
                        skip_render: false,
                        style,
                    };
                    let ghost a = env.screen;
                    let ret = env.screen.push(eof_cpi);
                    let ghost pushed = env.screen;
                    env.screen.check_invariants();
                    if !ret.0 {
                        env.quit = true;
                        proof {
                            assert(push_step(a, env.screen, cells[0]));
                            trace = trace.push(env.screen);
                            assert(done + cells =~= done.push(cells[0]));
                            done = done + cells;
                            let x = env.screen.current_line_index < env.screen.spec_height();
                            lemma_accepted_push(t0, env.screen);
                            assert(!x);
                            assert(pa.push(x) =~= pa + seq![x]);
                            lemma_last_after_shift(last0, input, pa, seq![x], lo, s_i);
                            assert forall|rest: Seq<bool>|
                                #[trigger] last_after(last0, input, pushes_accepted(trace) + rest)
                                    == self.last_offset by {
                                assert((seq![x] + rest)[0] == x);
                                assert(last_after(lo, s_i, seq![x] + rest) == lo);
                            }
                        }
                        stopped = true;
                    } else {
                        env.screen.set_has_eof();
                    proof {
                        assert(Screen { has_eof: a.has_eof, ..env.screen } == pushed);
                        assert(push_step(a, env.screen, cells[0]));
                        trace = trace.push(env.screen);
                        assert(done + cells =~= done.push(cells[0]));
                        done = done + cells;
                        let x = env.screen.current_line_index < env.screen.spec_height();
                        lemma_accepted_push(t0, env.screen);
                        assert(x);
                        assert(pa.push(x) =~= pa + seq![x]);
                        lemma_last_after_shift(last0, input, pa, seq![x], lo, s_i);
                        assert forall|rest: Seq<bool>|
                            #[trigger] last_after(last0, input, pushes_accepted(trace) + rest)
                                == last_after(self.last_offset, input.skip(i + 1), rest) by {
                            assert((seq![x] + rest)[0] == x);
                            assert((seq![x] + rest).drop_first() =~= rest);
                        }
                    }
                    }
                },
                FilterData::TextInfo { real_cp, displayed_cp } => {
                    let cpi = CodepointInfo {
                        used: true,
                        metadata: io.metadata,
                        cp: u32_to_char(*real_cp),
                        displayed_cp: u32_to_char(*displayed_cp),
                        offset: io.offset,
                        size: io.size,
                        skip_render: false,
                        style: io.style,
                    };
                    let ghost a = env.screen;
                    let ok = self.add_text_to_screen(env, cpi);
                    proof {
                        assert(Screen { has_eof: a.has_eof, ..env.screen } == env.screen);
                        assert(push_step(a, env.screen, cells[0]));
                        trace = trace.push(env.screen);
                        assert(done + cells =~= done.push(cells[0]));
                        done = done + cells;
                        let x = env.screen.current_line_index < env.screen.spec_height();
                        lemma_accepted_push(t0, env.screen);
                        assert(x == ok);
                        assert(pa.push(x) =~= pa + seq![x]);
                        lemma_last_after_shift(last0, input, pa, seq![x], lo, s_i);
                        assert forall|rest: Seq<bool>|
                            #[trigger] last_after(lo, s_i, seq![x] + rest) == if x {
                                last_after(io@.offset, input.skip(i + 1), rest)
                            } else {
                                lo
                            } by {
                            assert((seq![x] + rest)[0] == x);
                            assert((seq![x] + rest).drop_first() =~= rest);
                        }
                    }
                    if !ok {
                        stopped = true;
                    } else {
                        self.last_offset = io.offset;
                        proof {
                            bound = io.offset;
                        }
                    }
                },
                FilterData::UnicodeArray { .. } | FilterData::ByteArray { .. } => {
                    let ghost base = io@.offset->0;
                    let ghost m = cells.len();
                    let tg = self.put_array(env, io);
                    proof {
                        let t = tg@;
                        let isucc = pushes_accepted(t);
                        lemma_trace_concat(trace, done, t, cells);
                        trace = trace + t.skip(1);
                        done = done + cells;
                        lemma_leading_le(isucc);
                        lemma_last_after_shift(last0, input, pa, isucc, lo, s_i);
                        assert forall|rest: Seq<bool>|
                            #[trigger] last_after(lo, s_i, isucc + rest) == last_after(
                                self.last_offset,
                                input.skip(i + 1),
                                rest,
                            ) by {
                            assert((isucc + rest).take(m as int) =~= isucc);
                            assert((isucc + rest).skip(m as int) =~= rest);
                        }
                        bound = Some((base + m) as u64);
                    }
                },
            }
            proof {
                assert(!stopped ==> !has_limit(input.take(i + 1))) by {
                    if !stopped && has_limit(input.take(i + 1)) {
                        let k = choose|k: int| 0 <= k < input.take(i + 1).len() && (#[trigger] input.take(i + 1)[k]).data is CustomLimitReached;
                        if k < i {
                            assert(input.take(i as int)[k] == input.take(i + 1)[k]);
                        }
                    }
                }
            }
            i = i + 1;
        }
        proof {
            let pa = pushes_accepted(trace);
            if !stopped {
                assert(input.take(n as int) =~= input);
                assert(pa + Seq::<bool>::empty() =~= pa);
                assert(last_after(last0, input, pa + Seq::<bool>::empty()) == last_after(
                    self.last_offset,
                    input.skip(i as int),
                    Seq::<bool>::empty(),
                ));
                assert(input.skip(i as int).len() == 0);
            } else if has_limit(input.take(i as int)) {
                lemma_fill_prefix(input, i as int, eof);
                assert(pa + Seq::<bool>::empty() =~= pa);
                assert(last_after(last0, input, pa + Seq::<bool>::empty()) == self.last_offset);
            } else {
                lemma_fill_prefix(input, i as int, eof);
                let more = all_cells.skip(done.len() as int);
                trace = lemma_trace_full(trace, done, more);
                assert(done + more =~= all_cells);
                let falses = Seq::new(more.len(), |_k: int| false);
                assert(last_after(last0, input, pa + falses) == self.last_offset);
            }
            assert(self.last_offset == last_after(last0, input, pushes_accepted(trace)));
        }
        assert(fill_trace(trace, all_cells) && trace[0] == s0 && trace.last() == env.screen);
    }

    /// Records the size of the document on the screen.
    pub fn finish(&mut self, env: &mut LayoutEnv)
        ensures
            final(env).screen == (Screen { doc_max_offset: old(env).max_offset, ..old(env).screen }),
            final(env).quit == old(env).quit,
    {
        env.screen.check_invariants();
        env.screen.doc_max_offset = env.max_offset;
    }
}

} // verus!
