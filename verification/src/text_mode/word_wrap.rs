//! Wraps the lines longer than the screen: at the last blank when there is
//! one, else before the code point that does not fit; a wrapped line ends
//! with a `\` marker.

use vstd::prelude::*;

use crate::codec::scalar_char;
use crate::codec::u32_to_char;
use crate::codepointinfo::TextStyle;
use crate::screen::screen::push_width;
use crate::view::layout::{ios, FilterData, FilterDataModel, FilterIo, FilterIoModel, LayoutEnv};

verus! {

/// Where the filter is in the current line.
#[derive(Debug, Clone, Copy, PartialEq, Eq, Structural)]
pub enum WordWrapState {
    Init,
    InWord,
    Blank,
    EndOfLine,
}

/// The mathematical value of a `WordWrapElement`.
pub struct WrapElemModel {
    pub io: FilterIoModel,
    pub c: char,
    pub width: u32,
    pub offset: Option<u64>,
}

/// An element of the line being wrapped: the pipeline element, the code
/// point it displays, its width on screen and its offset.
pub struct WordWrapElement {
    io: FilterIo,
    c: char,
    char_width: u32,
    offset: Option<u64>,
}

impl View for WordWrapElement {
    type V = WrapElemModel;

    closed spec fn view(&self) -> WrapElemModel {
        WrapElemModel { io: self.io@, c: self.c, width: self.char_width, offset: self.offset }
    }
}

impl WordWrapElement {
    pub fn new(io: FilterIo, c: char, char_width: u32, offset: &Option<u64>) -> (e: WordWrapElement)
        ensures
            e@ == (WrapElemModel { io: io@, c, width: char_width, offset: *offset }),
    {
        WordWrapElement { io, c, char_width, offset: *offset }
    }

    /// A copy of `elm`.
    pub fn from_elm(elm: &WordWrapElement) -> (e: WordWrapElement)
        ensures
            e@ == elm@,
    {
        WordWrapElement {
            io: elm.io.duplicate(),
            c: elm.c,
            char_width: elm.char_width,
            offset: elm.offset,
        }
    }
}

/// The pipeline elements of a line.
pub open spec fn elems_ios(l: Seq<WrapElemModel>) -> Seq<FilterIoModel> {
    l.map_values(|e: WrapElemModel| e.io)
}

/// The total width of a line.
pub open spec fn widths(l: Seq<WrapElemModel>) -> int
    decreases l.len(),
{
    if l.len() == 0 {
        0
    } else {
        widths(l.drop_last()) + l.last().width
    }
}

/// The element that ends a wrapped line.
pub open spec fn wrap_newline(offset: Option<u64>) -> FilterIoModel {
    FilterIoModel::text(true, TextStyle::spec_new(), offset, 0, '\n' as u32, ' ' as u32)
}

/// The `\` marker shown where a line was wrapped.
pub open spec fn wrap_delimiter(offset: Option<u64>) -> FilterIoModel {
    FilterIoModel::text(
        true,
        TextStyle { color: (255u8, 255u8, 0u8), ..TextStyle::spec_new() },
        offset,
        0,
        '\\' as u32,
        '\\' as u32,
    )
}

/// Scanning `l` from its end, `idx` elements back: the first element past
/// the last two whose offset is not `o`; the wrap point is just after it.
pub open spec fn offset_split_from(l: Seq<WrapElemModel>, o: u64, idx: int) -> Option<int>
    decreases l.len() - idx,
{
    if idx < 0 || idx >= l.len() {
        None
    } else if l[l.len() - 1 - idx].offset != Some(o) && idx > 1 {
        Some(l.len() - idx)
    } else {
        offset_split_from(l, o, idx + 1)
    }
}

/// The elements that scan reads all have an offset.
pub open spec fn offset_scan_ok(l: Seq<WrapElemModel>, o: u64, idx: int) -> bool
    decreases l.len() - idx,
{
    if idx < 0 || idx >= l.len() {
        true
    } else {
        &&& l[l.len() - 1 - idx].offset is Some
        &&& (l[l.len() - 1 - idx].offset != Some(o) && idx > 1 || offset_scan_ok(l, o, idx + 1))
    }
}

/// Scanning `l` from its end, `idx` elements back: the wrap point just
/// after the last blank, when that blank is not one of the last two
/// elements.
pub open spec fn blank_split_from(l: Seq<WrapElemModel>, idx: int) -> Option<int>
    decreases l.len() - idx,
{
    if idx < 0 || idx >= l.len() {
        None
    } else if l[l.len() - 1 - idx].c == ' ' {
        if idx > 1 {
            Some(l.len() - idx)
        } else {
            None
        }
    } else {
        blank_split_from(l, idx + 1)
    }
}

/// Where a line too wide is cut: after the code points that share the
/// offset of the last one, when the last two shared it, else after the last
/// blank.
pub open spec fn wrap_split(l: Seq<WrapElemModel>, prev: Option<u64>, offset: Option<u64>) -> Option<int> {
    let by_offset = match (prev, offset) {
        (Some(p), Some(o)) => if p == o {
            offset_split_from(l, o, 0)
        } else {
            None
        },
        _ => None,
    };
    if by_offset is Some {
        by_offset
    } else {
        blank_split_from(l, 0)
    }
}

/// The state of the filter: whether the pass is over, the screen size, the
/// current line, its width, and the offset of the last element.
pub struct WrapModel {
    pub quit: bool,
    pub bench: bool,
    pub state: WordWrapState,
    pub max_column: u64,
    pub max_row: u64,
    pub column_count: u64,
    pub prev_offset: Option<u64>,
    pub line: Seq<WrapElemModel>,
    pub line_index: usize,
}

/// The line `st.line` is too wide: it is cut at `split`, or before its last
/// element when there is no wrap point; what comes before is sent, ended by
/// the wrap markers when they fit, and the rest starts the next line.
pub open spec fn wrap_cut(st: WrapModel, split: Option<int>, c: char, w: int) -> (WrapModel, Seq<FilterIoModel>) {
    let l = st.line;
    let li = st.line_index + 1;
    let quit = st.quit || li >= st.max_row;
    match split {
        Some(si) => {
            let left = l.take(si);
            let right = l.skip(si);
            let so = left.last().offset;
            let arrow = WrapElemModel { io: wrap_delimiter(so), c, width: 1, offset: so };
            let nl = WrapElemModel { io: wrap_newline(so), c, width: 1, offset: so };
            let sent = if left.len() <= st.max_column {
                if left.len() + 1 < st.max_column {
                    left.push(arrow).push(nl)
                } else {
                    left.push(arrow)
                }
            } else {
                left
            };
            (
                WrapModel {
                    line: right,
                    column_count: widths(right) as u64,
                    line_index: li as usize,
                    quit,
                    ..st
                },
                elems_ios(sent),
            )
        },
        None => (
            WrapModel {
                line: seq![l.last()],
                column_count: w as u64,
                line_index: li as usize,
                quit,
                ..st
            },
            elems_ios(l.drop_last()),
        ),
    }
}

/// A text element through the filter.
///
/// It joins the current line; a line feed sends the line. When the line
/// gets wider than the screen, it is wrapped (see `wrap_cut`).
pub open spec fn wrap_text(st: WrapModel, io: FilterIoModel, real_cp: u32, displayed_cp: u32) -> (
    WrapModel,
    Seq<FilterIoModel>,
) {
    let c = scalar_char(displayed_cp);
    let w = push_width(c);
    let e = WrapElemModel { io, c, width: w as u32, offset: io.offset };
    let line = st.line.push(e);
    let rc = scalar_char(real_cp);
    let first = if rc == '\n' {
        (
            WrapModel {
                column_count: 0,
                line: seq![],
                line_index: (st.line_index + 1) as usize,
                quit: st.quit || st.line_index + 1 >= st.max_row,
                state: WordWrapState::Init,
                ..st
            },
            elems_ios(line),
        )
    } else {
        (
            WrapModel {
                column_count: (st.column_count + w) as u64,
                line,
                state: if rc == ' ' || rc == '\t' {
                    WordWrapState::Blank
                } else {
                    WordWrapState::InWord
                },
                ..st
            },
            seq![],
        )
    };
    let second = if first.0.column_count > first.0.max_column {
        wrap_cut(first.0, wrap_split(first.0.line, st.prev_offset, io.offset), c, w)
    } else {
        (first.0, seq![])
    };
    (WrapModel { prev_offset: io.offset, ..second.0 }, first.1 + second.1)
}

/// One element through the filter: text is wrapped, an end marker sends
/// the current line and itself (unless the pass is over) and ends the pass,
/// anything else is dropped.
pub open spec fn wrap_step(st: WrapModel, io: FilterIoModel) -> (WrapModel, Seq<FilterIoModel>) {
    match io.data {
        FilterDataModel::TextInfo { real_cp, displayed_cp } => wrap_text(st, io, real_cp, displayed_cp),
        FilterDataModel::EndOfStream | FilterDataModel::CustomLimitReached => (
            WrapModel { quit: true, ..st },
            if !st.quit {
                elems_ios(st.line).push(io)
            } else {
                seq![]
            },
        ),
        _ => (st, seq![]),
    }
}

/// The pass is over and the filter does not run to the end of the document.
pub open spec fn wrap_stopped(st: WrapModel) -> bool {
    st.quit && !st.bench
}

/// The elements `s` through the filter, element by element, until the pass
/// is over.
pub open spec fn wrap_run(st: WrapModel, s: Seq<FilterIoModel>) -> (WrapModel, Seq<FilterIoModel>)
    decreases s.len(),
{
    if s.len() == 0 {
        (st, seq![])
    } else {
        let r = wrap_run(st, s.drop_last());
        if wrap_stopped(r.0) {
            r
        } else {
            let t = wrap_step(r.0, s.last());
            (t.0, r.1 + t.1)
        }
    }
}

/// The filter can take `io`: text comes in offset order, and no counter
/// overflows.
pub open spec fn wrap_step_ok(st: WrapModel, io: FilterIoModel) -> bool {
    match io.data {
        FilterDataModel::TextInfo { real_cp, displayed_cp } => {
            let c = scalar_char(displayed_cp);
            let w = push_width(c);
            let line = st.line.push(WrapElemModel { io, c, width: w as u32, offset: io.offset });
            &&& (st.prev_offset matches Some(p) && io.offset matches Some(o) ==> p <= o)
            &&& st.column_count + w <= u64::MAX
            &&& widths(st.line) + w <= u64::MAX
            &&& st.line_index + 1 <= usize::MAX
            &&& (scalar_char(real_cp) != '\n' && st.column_count + w > st.max_column
                && st.prev_offset == io.offset && io.offset is Some ==> offset_scan_ok(
                line,
                io.offset->0,
                0,
            ))
        },
        _ => true,
    }
}

/// The filter can take all the elements of `s` it reads.
pub open spec fn wrap_run_ok(st: WrapModel, s: Seq<FilterIoModel>) -> bool
    decreases s.len(),
{
    if s.len() == 0 {
        true
    } else {
        let r = wrap_run(st, s.drop_last());
        &&& wrap_run_ok(st, s.drop_last())
        &&& (wrap_stopped(r.0) || wrap_step_ok(r.0, s.last()))
    }
}

/// The models of the elements of a line.
pub open spec fn elems(v: Seq<WordWrapElement>) -> Seq<WrapElemModel> {
    v.map_values(|e: WordWrapElement| e@)
}

proof fn lemma_widths_split(l: Seq<WrapElemModel>, j: int)
    requires
        0 <= j <= l.len(),
    ensures
        widths(l) == widths(l.take(j)) + widths(l.skip(j)),
        widths(l.take(j)) >= 0,
        widths(l.skip(j)) >= 0,
    decreases l.len(),
{
    if l.len() == 0 {
        assert(l.take(j) =~= l);
        assert(l.skip(j) =~= l);
    } else if j == l.len() {
        assert(l.take(j) =~= l);
        assert(l.skip(j) =~= Seq::<WrapElemModel>::empty());
        lemma_widths_split(l.drop_last(), 0);
        assert(l.drop_last().skip(0) =~= l.drop_last());
    } else {
        lemma_widths_split(l.drop_last(), j);
        assert(l.drop_last().take(j) =~= l.take(j));
        assert(l.skip(j).drop_last() =~= l.drop_last().skip(j));
        assert(l.skip(j).last() == l.last());
    }
}

/// Scans `l` from its end for the first element, past the last two, whose
/// offset is not `o`; the wrap point is just after it.
fn find_offset_split(l: &Vec<WordWrapElement>, o: u64) -> (r: Option<usize>)
    requires
        offset_scan_ok(elems(l@), o, 0),
    ensures
        match offset_split_from(elems(l@), o, 0) {
            Some(si) => r == Some(si as usize),
            None => r is None,
        },
{
    let ghost m = elems(l@);
    let n = l.len();
    let mut idx: usize = 0;
    while idx < n
        invariant
            n == l@.len(),
            m == elems(l@),
            0 <= idx <= n,
            offset_split_from(m, o, 0) == offset_split_from(m, o, idx as int),
            offset_scan_ok(m, o, idx as int),
        decreases n - idx,
    {
        let e = &l[n - 1 - idx];
        assert(m[n - 1 - idx] == e@);
        let eo = match e.offset {
            Some(x) => x,
            None => 0,
        };
        if eo != o && idx > 1 {
            return Some(n - idx);
        }
        idx = idx + 1;
    }
    None
}

/// Scans `l` from its end for its last blank; the wrap point is just after
/// it, unless it is one of the last two elements.
fn find_blank_split(l: &Vec<WordWrapElement>) -> (r: Option<usize>)
    ensures
        match blank_split_from(elems(l@), 0) {
            Some(si) => r == Some(si as usize),
            None => r is None,
        },
{
    let ghost m = elems(l@);
    let n = l.len();
    let mut idx: usize = 0;
    while idx < n
        invariant
            n == l@.len(),
            m == elems(l@),
            0 <= idx <= n,
            blank_split_from(m, 0) == blank_split_from(m, idx as int),
        decreases n - idx,
    {
        let e = &l[n - 1 - idx];
        assert(m[n - 1 - idx] == e@);
        if e.c == ' ' {
            if idx > 1 {
                return Some(n - idx);
            }
            return None;
        }
        idx = idx + 1;
    }
    None
}

/// Appends the pipeline elements of `l` to `filter_out`.
fn flush_line(l: &Vec<WordWrapElement>, filter_out: &mut Vec<FilterIo>)
    ensures
        ios(final(filter_out)@) == ios(old(filter_out)@) + elems_ios(elems(l@)),
{
    let ghost out0 = ios(filter_out@);
    let n = l.len();
    let mut k: usize = 0;
    while k < n
        invariant
            n == l@.len(),
            0 <= k <= n,
            ios(filter_out@) == out0 + elems_ios(elems(l@)).take(k as int),
        decreases n - k,
    {
        let ghost prev = filter_out@;
        filter_out.push(l[k].io.duplicate());
        assert(ios(filter_out@) =~= out0 + elems_ios(elems(l@)).take(k + 1)) by {
            assert(ios(filter_out@) =~= ios(prev).push(l@[k as int]@.io));
        }
        k = k + 1;
    }
    assert(elems_ios(elems(l@)).take(n as int) =~= elems_ios(elems(l@)));
}

pub struct WordWrapFilter {
    quit: bool,
    bench: bool,
    state: WordWrapState,
    max_column: u64,
    max_row: u64,
    column_count: u64,
    accum: Vec<FilterIo>,
    prev_offset: Option<u64>,
    lines: Vec<Vec<WordWrapElement>>,
    line_index: usize,
}

impl WordWrapFilter {
    /// The state of the filter; of the lines it keeps, the last one is the
    /// current line.
    pub closed spec fn model(&self) -> WrapModel {
        WrapModel {
            quit: self.quit,
            bench: self.bench,
            state: self.state,
            max_column: self.max_column,
            max_row: self.max_row,
            column_count: self.column_count,
            prev_offset: self.prev_offset,
            line: elems(self.lines@.last()@),
            line_index: self.line_index,
        }
    }

    /// The current line is the last one kept, and the screen size fits a
    /// `usize`.
    pub closed spec fn wf(&self) -> bool {
        &&& self.lines@.len() == self.line_index + 1
        &&& self.max_column <= usize::MAX
        &&& self.max_row <= usize::MAX
    }

    pub fn new() -> (f: WordWrapFilter)
        ensures
            f.wf(),
            f.model() == (WrapModel {
                quit: false,
                bench: false,
                state: WordWrapState::Init,
                max_column: 0,
                max_row: 0,
                column_count: 0,
                prev_offset: None,
                line: seq![],
                line_index: 0,
            }),
    {
        let f = WordWrapFilter {
            quit: false,
            bench: false,
            state: WordWrapState::Init,
            max_column: 0,
            max_row: 0,
            column_count: 0,
            accum: vec![],
            prev_offset: None,
            lines: vec![Vec::new()],
            line_index: 0,
        };
        assert(f.model().line =~= Seq::<WrapElemModel>::empty());
        f
    }

    /// Starts a layout pass on a screen of the size of the one of `env`;
    /// `bench` runs to the end of the document.
    pub fn reset(&mut self, env: &LayoutEnv, bench: bool) -> (r: &mut Self)
        requires
            env.screen.wf(),
        ensures
            r.wf(),
            r.model() == (WrapModel {
                quit: false,
                bench,
                state: WordWrapState::Init,
                max_column: env.screen.spec_width() as u64,
                max_row: env.screen.spec_height() as u64,
                column_count: 0,
                prev_offset: None,
                line: seq![],
                line_index: 0,
            }),
            *final(self) == *final(r),
    {
        self.quit = false;
        self.state = WordWrapState::Init;
        self.max_column = env.screen.width() as u64;
        self.max_row = env.screen.height() as u64;
        self.column_count = 0;
        self.accum = Vec::new();
        self.prev_offset = None;
        self.lines = vec![Vec::new()];
        self.line_index = 0;
        self.bench = bench;
        assert(self.model().line =~= Seq::<WrapElemModel>::empty());
        self
    }

    /// Takes the text element `io` (see `wrap_text`).
    #[verifier::rlimit(80)]
    fn run_text(
        &mut self,
        env: &LayoutEnv,
        io: &FilterIo,
        real_cp: u32,
        displayed_cp: u32,
        filter_out: &mut Vec<FilterIo>,
    )
        requires
            old(self).wf(),
            io@.data == (FilterDataModel::TextInfo { real_cp, displayed_cp }),
            wrap_step_ok(old(self).model(), io@),
        ensures
            final(self).wf(),
            ({
                let t = wrap_text(old(self).model(), io@, real_cp, displayed_cp);
                &&& final(self).model() == t.0
                &&& ios(final(filter_out)@) == ios(old(filter_out)@) + t.1
            }),
    {
        let ghost st = self.model();
        let ghost out0 = ios(filter_out@);
        let ghost t = wrap_text(st, io@, real_cp, displayed_cp);
        let c = u32_to_char(displayed_cp);
        let real_c = u32_to_char(real_cp);
        let c_width = env.screen.char_width(c) as u64;
        let e = WordWrapElement::new(io.duplicate(), c, c_width as u32, &io.offset);
        let ghost em = e@;
        self.column_count = self.column_count + c_width;
        let mut l = match self.lines.pop() {
            Some(l) => l,
            None => Vec::new(),
        };
        l.push(e);
        self.lines.push(l);
        let ghost line = st.line.push(em);
        assert(elems(self.lines@.last()@) =~= line);
        proof {
            lemma_widths_split(line, st.line.len() as int);
            assert(line.take(st.line.len() as int) =~= st.line);
            assert(widths(line.skip(st.line.len() as int)) == em.width) by {
                assert(line.skip(st.line.len() as int).drop_last() =~= Seq::<WrapElemModel>::empty());
            }
        }
        let next_state = if real_c == ' ' || real_c == '\t' {
            WordWrapState::Blank
        } else {
            WordWrapState::InWord
        };
        if real_c == '\n' {
            let li = self.line_index;
            flush_line(&self.lines[li], filter_out);
            self.column_count = 0;
            self.line_index = self.line_index + 1;
            self.lines.push(Vec::new());
            if self.line_index >= self.max_row as usize {
                self.quit = true;
            }
            self.state = WordWrapState::Init;
            assert(elems(self.lines@.last()@) =~= Seq::<WrapElemModel>::empty());
        } else {
            self.state = next_state;
        }
        let ghost first_out = ios(filter_out@);
        let ghost st1 = self.model();
        if self.column_count > self.max_column {
            let li = self.line_index;
            let mut split_index: Option<usize> = None;
            match (self.prev_offset, io.offset) {
                (Some(prev_off), Some(e_off)) => {
                    if prev_off == e_off {
                        split_index = find_offset_split(&self.lines[li], e_off);
                    }
                },
                _ => {},
            }
            if split_index.is_none() {
                split_index = find_blank_split(&self.lines[li]);
            }
            let ghost split = wrap_split(st1.line, st.prev_offset, io@.offset);
            assert(match split {
                Some(si) => split_index == Some(si as usize),
                None => split_index is None,
            });
            match split_index {
                Some(si) => {
                    let mut l = match self.lines.pop() {
                        Some(l) => l,
                        None => Vec::new(),
                    };
                    let ghost lm = elems(l@);
                    let n = l.len();
                    assert(lm == line);
                    proof {
                        lemma_offset_split_range(lm, io@.offset->0, 0);
                        lemma_blank_split_range(lm, 0);
                        assert(st1.line == lm);
                        assert(split matches Some(x) ==> 1 <= x <= lm.len() - 2);
                        assert(split is Some);
                        assert(lm.len() == n);
                        assert(split->0 == si);
                        assert(1 <= si && si + 2 <= lm.len());
                    }
                    let split_offset = l[si - 1].offset;
                    let mut next_line: Vec<WordWrapElement> = Vec::new();
                    let mut k: usize = si;
                    while k < n
                        invariant
                            n == l@.len(),
                            lm == elems(l@),
                            si <= k <= n,
                            elems(next_line@) == lm.subrange(si as int, k as int),
                        decreases n - k,
                    {
                        let ghost prev = next_line@;
                        let ne = WordWrapElement::from_elm(&l[k]);
                        let ghost nem = ne@;
                        next_line.push(ne);
                        assert(lm.len() == l@.len());
                        assert(lm[k as int] == l@[k as int]@);
                        assert(nem == lm[k as int]);
                        assert(elems(next_line@) =~= elems(prev).push(nem));
                        assert(lm.subrange(si as int, k + 1) =~= lm.subrange(si as int, k as int).push(lm[k as int]));
                        k = k + 1;
                    }
                    assert(lm.subrange(si as int, n as int) =~= lm.skip(si as int));
                    let mut restart_col: u64 = 0;
                    let cut = n - si;
                    let mut p: usize = 0;
                    proof {
                        lemma_widths_split(lm, si as int);
                        assert(lm.skip(n as int) =~= Seq::<WrapElemModel>::empty());
                        assert(lm.take(n as int) =~= lm);
                    }
                    while p < cut
                        invariant
                            cut == n - si,
                            n == lm.len(),
                            0 <= p <= cut,
                            elems(l@) == lm.take(n - p),
                            restart_col == widths(lm.skip(n - p)),
                            widths(lm) <= u64::MAX,
                            widths(lm) == widths(lm.take(si as int)) + widths(lm.skip(si as int)),
                            widths(lm.take(si as int)) >= 0,
                        decreases cut - p,
                    {
                        let ghost before = l@;
                        proof {
                            let sfx = lm.skip(n - p - 1);
                            lemma_widths_split(sfx, 1);
                            assert(sfx.skip(1) =~= lm.skip(n - p));
                            assert(sfx.take(1).drop_last() =~= Seq::<WrapElemModel>::empty());
                            assert(sfx.take(1).last() == lm[n - p - 1]);
                            assert(widths(Seq::<WrapElemModel>::empty()) == 0);
                            assert(widths(sfx.take(1)) == lm[n - p - 1].width);
                            lemma_widths_split(lm, n - p - 1);
                            lemma_widths_split(lm.skip(si as int), n - p - 1 - si);
                            assert(lm.skip(si as int).skip(n - p - 1 - si) =~= sfx);
                        }
                        assert(elems(before).len() == before.len());
                        assert(before.len() == n - p);
                        assert(elems(before)[n - p - 1] == before[n - p - 1]@);
                        assert(lm.take(n - p)[n - p - 1] == lm[n - p - 1]);
                        if let Some(e) = l.pop() {
                            assert(e@ == lm[n - p - 1]);
                            restart_col = restart_col + e.char_width as u64;
                        }
                        assert(elems(l@) =~= lm.take(n - p - 1));
                        p = p + 1;
                    }
                    assert(elems(l@) =~= lm.take(si as int));
                    if l.len() <= self.max_column as usize {
                        let arrow = build_wrap_point_delimiter(split_offset);
                        let e = WordWrapElement::new(arrow, c, 1, &split_offset);
                        l.push(e);
                        if l.len() < self.max_column as usize {
                            let fnl = build_wrap_point_new_line(split_offset);
                            let e = WordWrapElement::new(fnl, c, 1, &split_offset);
                            l.push(e);
                        }
                    }
                    flush_line(&l, filter_out);
                    self.lines.push(l);
                    self.line_index = self.line_index + 1;
                    self.lines.push(next_line);
                    self.column_count = restart_col;
                    if self.line_index >= self.max_row as usize {
                        self.quit = true;
                    }
                    proof {
                        let left = lm.take(si as int);
                        let so = left.last().offset;
                        let arrow = WrapElemModel { io: wrap_delimiter(so), c, width: 1, offset: so };
                        let nl = WrapElemModel { io: wrap_newline(so), c, width: 1, offset: so };
                        assert(left.last() == lm[si - 1]);
                        if left.len() <= st1.max_column {
                            if left.len() + 1 < st1.max_column {
                                assert(elems(self.lines@[self.line_index - 1]@) =~= left.push(arrow).push(nl));
                            } else {
                                assert(elems(self.lines@[self.line_index - 1]@) =~= left.push(arrow));
                            }
                        }
                    }
                },
                None => {
                    let mut l = match self.lines.pop() {
                        Some(l) => l,
                        None => Vec::new(),
                    };
                    let ghost lm = elems(l@);
                    let last_e = match l.pop() {
                        Some(e) => e,
                        None => WordWrapElement::new(io.duplicate(), c, c_width as u32, &io.offset),
                    };
                    assert(elems(l@) =~= lm.drop_last());
                    flush_line(&l, filter_out);
                    self.lines.push(l);
                    self.column_count = c_width;
                    let mut nl: Vec<WordWrapElement> = Vec::new();
                    nl.push(last_e);
                    self.lines.push(nl);
                    self.line_index = self.line_index + 1;
                    if self.line_index >= self.max_row as usize {
                        self.quit = true;
                    }
                    assert(elems(self.lines@.last()@) =~= seq![lm.last()]);
                },
            }
        }
        self.prev_offset = io.offset;
        proof {
            assert(ios(filter_out@) =~= out0 + t.1);
        }
    }
}

impl WordWrapFilter {
    /// Appends to `filter_out` the elements of `filter_in` with the lines
    /// wider than the screen wrapped (see `wrap_run`); once the pass is
    /// over, the next call only starts a new one. A screen of at most two
    /// columns is not wrapped: `filter_out` gets a copy of `filter_in`.
    pub fn run(&mut self, env: &LayoutEnv, filter_in: &[FilterIo], filter_out: &mut Vec<FilterIo>)
        requires
            old(self).wf(),
            old(self).model().max_column > 2 && !wrap_stopped(old(self).model()) ==> wrap_run_ok(
                old(self).model(),
                ios(filter_in@),
            ),
        ensures
            final(self).wf(),
            ({
                let st = old(self).model();
                if st.max_column <= 2 {
                    &&& final(self).model() == st
                    &&& ios(final(filter_out)@) == ios(filter_in@)
                } else if wrap_stopped(st) {
                    &&& final(self).model() == (WrapModel { quit: false, ..st })
                    &&& final(filter_out)@ == old(filter_out)@
                } else {
                    let r = wrap_run(st, ios(filter_in@));
                    &&& final(self).model() == if r.0.quit {
                        WrapModel { line: seq![], line_index: 0, ..r.0 }
                    } else {
                        r.0
                    }
                    &&& ios(final(filter_out)@) == ios(old(filter_out)@) + r.1
                }
            }),
    {
        let ghost st = self.model();
        let ghost input = ios(filter_in@);
        let n = filter_in.len();
        if self.max_column <= 2 {
            let mut copy: Vec<FilterIo> = Vec::new();
            let mut k: usize = 0;
            while k < n
                invariant
                    n == filter_in@.len(),
                    0 <= k <= n,
                    ios(copy@) == input.take(k as int),
                    input == ios(filter_in@),
                decreases n - k,
            {
                let ghost prev = copy@;
                copy.push(filter_in[k].duplicate());
                assert(ios(copy@) =~= input.take(k + 1)) by {
                    assert(ios(copy@) =~= ios(prev).push(filter_in@[k as int]@));
                }
                k = k + 1;
            }
            assert(input.take(n as int) =~= input);
            *filter_out = copy;
            return ;
        }
        if self.quit && !self.bench {
            self.quit = false;
            return ;
        }
        let ghost out0 = ios(filter_out@);
        proof {
            lemma_wrap_run_ok_prefix(st, input, n as int);
            assert(input.take(n as int) =~= input);
        }
        let mut i: usize = 0;
        while i < n && !(self.quit && !self.bench)
            invariant
                n == filter_in@.len(),
                input == ios(filter_in@),
                0 <= i <= n,
                self.wf(),
                wrap_run_ok(st, input),
                ({
                    let r = wrap_run(st, input.take(i as int));
                    &&& self.model() == r.0
                    &&& ios(filter_out@) == out0 + r.1
                }),
            decreases n - i,
        {
            let ghost r = wrap_run(st, input.take(i as int));
            proof {
                assert(input.take(i + 1).drop_last() =~= input.take(i as int));
                assert(input.take(i + 1).last() == filter_in@[i as int]@);
                lemma_wrap_run_ok_prefix(st, input, i + 1);
            }
            let io = &filter_in[i];
            match &io.data {
                FilterData::TextInfo { real_cp, displayed_cp } => {
                    if let (Some(prev_off), Some(e_off)) = (self.prev_offset, io.offset) {
                        assert(prev_off <= e_off);
                    }
                    self.run_text(env, io, *real_cp, *displayed_cp, filter_out);
                },
                FilterData::EndOfStream | FilterData::CustomLimitReached => {
                    if !self.quit {
                        let li = self.line_index;
                        let ghost prev = ios(filter_out@);
                        flush_line(&self.lines[li], filter_out);
                        let ghost mid = filter_out@;
                        filter_out.push(io.duplicate());
                        assert(ios(filter_out@) =~= ios(mid).push(io@));
                    }
                    self.quit = true;
                },
                _ => {},
            }
            i = i + 1;
        }
        proof {
            if i < n {
                lemma_wrap_run_stopped(st, input, i as int, n as int);
                assert(input.take(n as int) =~= input);
            } else {
                assert(input.take(n as int) =~= input);
            }
        }
        if self.quit {
            self.lines = vec![Vec::new()];
            self.line_index = 0;
            self.accum.clear();
            assert(self.model().line =~= Seq::<WrapElemModel>::empty());
        }
    }
}

proof fn lemma_wrap_run_ok_prefix(st: WrapModel, s: Seq<FilterIoModel>, i: int)
    requires
        0 <= i <= s.len(),
        wrap_run_ok(st, s),
    ensures
        wrap_run_ok(st, s.take(i)),
    decreases s.len(),
{
    if i == s.len() {
        assert(s.take(i) =~= s);
    } else {
        assert(s.drop_last().take(i) =~= s.take(i));
        lemma_wrap_run_ok_prefix(st, s.drop_last(), i);
    }
}

proof fn lemma_wrap_run_stopped(st: WrapModel, s: Seq<FilterIoModel>, i: int, j: int)
    requires
        0 <= i <= j <= s.len(),
        wrap_stopped(wrap_run(st, s.take(i)).0),
    ensures
        wrap_run(st, s.take(j)) == wrap_run(st, s.take(i)),
    decreases j - i,
{
    if j > i {
        lemma_wrap_run_stopped(st, s, i, j - 1);
        assert(s.take(j).drop_last() =~= s.take(j - 1));
    }
}

/// The elements of `s` that stand for document bytes: the metadata left
/// out.
pub open spec fn unmarked(s: Seq<FilterIoModel>) -> Seq<FilterIoModel>
    decreases s.len(),
{
    if s.len() == 0 {
        seq![]
    } else if s.last().metadata {
        unmarked(s.drop_last())
    } else {
        unmarked(s.drop_last()).push(s.last())
    }
}

/// `s` is made of text elements that stand for document bytes.
pub open spec fn plain_text(s: Seq<FilterIoModel>) -> bool {
    forall|k: int| 0 <= k < s.len() ==> !(#[trigger] s[k]).metadata && s[k].data is TextInfo
}

proof fn lemma_unmarked_concat(a: Seq<FilterIoModel>, b: Seq<FilterIoModel>)
    ensures
        unmarked(a + b) == unmarked(a) + unmarked(b),
    decreases b.len(),
{
    if b.len() == 0 {
        assert(a + b =~= a);
        assert(unmarked(a) + unmarked(b) =~= unmarked(a));
    } else {
        lemma_unmarked_concat(a, b.drop_last());
        assert((a + b).drop_last() =~= a + b.drop_last());
        assert((a + b).last() == b.last());
        if !b.last().metadata {
            assert(unmarked(a) + unmarked(b) =~= (unmarked(a) + unmarked(b.drop_last())).push(
                b.last(),
            ));
        }
    }
}

proof fn lemma_unmarked_plain(s: Seq<FilterIoModel>)
    requires
        plain_text(s),
    ensures
        unmarked(s) == s,
    decreases s.len(),
{
    if s.len() > 0 {
        assert(plain_text(s.drop_last()));
        lemma_unmarked_plain(s.drop_last());
        assert(!s[s.len() - 1].metadata);
        assert(s.drop_last().push(s.last()) =~= s);
    }
}

proof fn lemma_elems_ios_split(l: Seq<WrapElemModel>, si: int)
    requires
        0 <= si <= l.len(),
    ensures
        elems_ios(l) == elems_ios(l.take(si)) + elems_ios(l.skip(si)),
{
    assert(elems_ios(l) =~= elems_ios(l.take(si)) + elems_ios(l.skip(si)));
}

/// Wrapping one text element keeps the text: what is sent, metadata left
/// out, followed by the new current line, is the old current line followed
/// by the element.
proof fn lemma_wrap_text_keeps(st: WrapModel, io: FilterIoModel, real_cp: u32, displayed_cp: u32)
    requires
        !io.metadata,
        io.data == (FilterDataModel::TextInfo { real_cp, displayed_cp }),
        plain_text(elems_ios(st.line)),
        st.column_count + push_width(scalar_char(displayed_cp)) <= u64::MAX,
    ensures
        ({
            let t = wrap_text(st, io, real_cp, displayed_cp);
            unmarked(t.1) + elems_ios(t.0.line) == elems_ios(st.line).push(io)
        }),
{
    let c = scalar_char(displayed_cp);
    let w = push_width(c);
    let e = WrapElemModel { io, c, width: w as u32, offset: io.offset };
    let line = st.line.push(e);
    assert(elems_ios(line) =~= elems_ios(st.line).push(io));
    assert(plain_text(elems_ios(line)));
    lemma_unmarked_plain(elems_ios(line));
    let t = wrap_text(st, io, real_cp, displayed_cp);
    let rc = scalar_char(real_cp);
    if rc == '\n' {
        assert(t.1 =~= elems_ios(line));
        assert(elems_ios(t.0.line) =~= Seq::<FilterIoModel>::empty());
        assert(elems_ios(line) + Seq::<FilterIoModel>::empty() =~= elems_ios(line));
    } else if st.column_count + w > st.max_column {
        let split = wrap_split(line, st.prev_offset, io.offset);
        lemma_offset_split_range(line, io.offset->0, 0);
        lemma_blank_split_range(line, 0);
        match split {
            Some(si) => {
                assert(1 <= si <= line.len() - 2);
                let left = line.take(si);
                let right = line.skip(si);
                let so = left.last().offset;
                let arrow = WrapElemModel { io: wrap_delimiter(so), c, width: 1, offset: so };
                let nl = WrapElemModel { io: wrap_newline(so), c, width: 1, offset: so };
                lemma_elems_ios_split(line, si);
                lemma_unmarked_concat(elems_ios(left), elems_ios(right));
                assert(plain_text(elems_ios(right))) by {
                    assert forall|k: int| 0 <= k < elems_ios(right).len() implies !(#[trigger] elems_ios(
                        right,
                    )[k]).metadata && elems_ios(right)[k].data is TextInfo by {
                        assert(elems_ios(right)[k] == elems_ios(line)[si + k]);
                    }
                }
                lemma_unmarked_plain(elems_ios(right));
                assert(plain_text(elems_ios(left))) by {
                    assert forall|k: int| 0 <= k < elems_ios(left).len() implies !(#[trigger] elems_ios(
                        left,
                    )[k]).metadata && elems_ios(left)[k].data is TextInfo by {
                        assert(elems_ios(left)[k] == elems_ios(line)[k]);
                    }
                }
                lemma_unmarked_plain(elems_ios(left));
                assert(elems_ios(left.push(arrow)) =~= elems_ios(left).push(wrap_delimiter(so)));
                assert(elems_ios(left.push(arrow).push(nl)) =~= elems_ios(left).push(
                    wrap_delimiter(so),
                ).push(wrap_newline(so)));
                assert(t.0.line == right);
                if left.len() <= st.max_column {
                    if left.len() + 1 < st.max_column {
                        lemma_unmarked_concat(elems_ios(left), seq![wrap_delimiter(so), wrap_newline(so)]);
                        assert(elems_ios(left).push(wrap_delimiter(so)).push(wrap_newline(so))
                            =~= elems_ios(left) + seq![wrap_delimiter(so), wrap_newline(so)]);
                        assert(unmarked(seq![wrap_delimiter(so), wrap_newline(so)]) =~= Seq::<
                            FilterIoModel,
                        >::empty()) by {
                            reveal_with_fuel(unmarked, 3);
                            assert(seq![wrap_delimiter(so), wrap_newline(so)].drop_last() =~= seq![
                                wrap_delimiter(so),
                            ]);
                            assert(seq![wrap_delimiter(so)].drop_last() =~= Seq::<
                                FilterIoModel,
                            >::empty());
                        }
                    } else {
                        lemma_unmarked_concat(elems_ios(left), seq![wrap_delimiter(so)]);
                        assert(elems_ios(left).push(wrap_delimiter(so)) =~= elems_ios(left) + seq![
                            wrap_delimiter(so),
                        ]);
                        assert(unmarked(seq![wrap_delimiter(so)]) =~= Seq::<FilterIoModel>::empty())
                            by {
                            reveal_with_fuel(unmarked, 2);
                            assert(seq![wrap_delimiter(so)].drop_last() =~= Seq::<
                                FilterIoModel,
                            >::empty());
                        }
                    }
                }
                assert(elems_ios(left) + Seq::<FilterIoModel>::empty() =~= elems_ios(left));
            },
            None => {
                assert(elems_ios(line.drop_last()) =~= elems_ios(line).drop_last());
                assert(plain_text(elems_ios(line).drop_last()));
                lemma_unmarked_plain(elems_ios(line).drop_last());
                assert(elems_ios(seq![line.last()]) =~= seq![io]);
                assert(elems_ios(line).drop_last().push(io) =~= elems_ios(line));
            },
        }
    } else {
        assert(t.1 =~= Seq::<FilterIoModel>::empty());
        assert(t.0.line == line);
    }
}

/// A pass that does not end keeps the text: what the filter sends,
/// metadata (the wrap markers) left out, followed by the line it holds, is
/// the line it held followed by the text it was given. Wrapping inserts
/// markers and loses or reorders nothing.
pub proof fn lemma_wrap_keeps_text(st: WrapModel, s: Seq<FilterIoModel>)
    requires
        wrap_run_ok(st, s),
        plain_text(s),
        plain_text(elems_ios(st.line)),
        !wrap_run(st, s).0.quit,
    ensures
        ({
            let r = wrap_run(st, s);
            unmarked(r.1) + elems_ios(r.0.line) == elems_ios(st.line) + s
        }),
    decreases s.len(),
{
    if s.len() == 0 {
        assert(unmarked(Seq::<FilterIoModel>::empty()) =~= Seq::<FilterIoModel>::empty());
        assert(elems_ios(st.line) + s =~= elems_ios(st.line));
        assert(Seq::<FilterIoModel>::empty() + elems_ios(st.line) =~= elems_ios(st.line));
    } else {
        let r = wrap_run(st, s.drop_last());
        assert(plain_text(s.drop_last()));
        let x = s.last();
        assert(!x.metadata && x.data is TextInfo) by {
            assert(s[s.len() - 1] == x);
        }
        if r.0.quit {
            if wrap_stopped(r.0) {
                assert(wrap_run(st, s) == r);
            } else {
                assert(wrap_step(r.0, x).0.quit);
            }
        }
        assert(!r.0.quit);
        lemma_wrap_keeps_text(st, s.drop_last());
        let lr = elems_ios(r.0.line);
        let base = elems_ios(st.line) + s.drop_last();
        assert(plain_text(lr)) by {
            assert forall|k: int| 0 <= k < lr.len() implies !(#[trigger] lr[k]).metadata
                && lr[k].data is TextInfo by {
                let u = unmarked(r.1);
                assert((u + lr)[u.len() + k] == lr[k]);
                assert(base[u.len() + k] == lr[k]);
                if u.len() + k < elems_ios(st.line).len() {
                    assert(base[u.len() + k] == elems_ios(st.line)[u.len() + k]);
                } else {
                    assert(base[u.len() + k] == s.drop_last()[u.len() + k - elems_ios(st.line).len()]);
                }
            }
        }
        if let FilterDataModel::TextInfo { real_cp, displayed_cp } = x.data {
            lemma_wrap_text_keeps(r.0, x, real_cp, displayed_cp);
        }
        let t = wrap_step(r.0, x);
        lemma_unmarked_concat(r.1, t.1);
        assert(unmarked(r.1) + unmarked(t.1) + elems_ios(t.0.line) =~= unmarked(r.1) + (unmarked(
            t.1,
        ) + elems_ios(t.0.line)));
        assert(unmarked(r.1) + lr.push(x) =~= (unmarked(r.1) + lr).push(x));
        assert(base.push(x) =~= elems_ios(st.line) + s);
    }
}

/// The `\n` element that ends a wrapped line.
fn build_wrap_point_new_line(blank_offset: Option<u64>) -> (io: FilterIo)
    ensures
        io@ == wrap_newline(blank_offset),
{
    FilterIo {
        metadata: true,
        style: TextStyle::new(),
        offset: blank_offset,
        size: 0,
        data: FilterData::TextInfo { real_cp: '\n' as u32, displayed_cp: ' ' as u32 },
    }
}

/// The `\\` marker shown where a line was wrapped.
fn build_wrap_point_delimiter(blank_offset: Option<u64>) -> (io: FilterIo)
    ensures
        io@ == wrap_delimiter(blank_offset),
{
    let mut io = FilterIo {
        metadata: true,
        style: TextStyle::new(),
        offset: blank_offset,
        size: 0,
        data: FilterData::TextInfo { real_cp: '\\' as u32, displayed_cp: '\\' as u32 },
    };
    io.style.color = (255, 255, 0);
    io
}

proof fn lemma_offset_split_range(l: Seq<WrapElemModel>, o: u64, idx: int)
    requires
        0 <= idx,
    ensures
        offset_split_from(l, o, idx) matches Some(si) ==> 1 <= si <= l.len() - 2,
    decreases l.len() - idx,
{
    if idx < l.len() {
        lemma_offset_split_range(l, o, idx + 1);
    }
}

/// A line too wide that is cut by offset is cut just after its last element
/// before the last two whose offset is not `o`: the elements from the cut
/// up to the last two all have offset `o`; when it is not cut so, all its
/// elements before the last two have offset `o`.
pub proof fn lemma_offset_split_after_last_other(l: Seq<WrapElemModel>, o: u64)
    ensures
        match offset_split_from(l, o, 0) {
            Some(si) => {
                &&& 1 <= si <= l.len() - 2
                &&& l[si - 1].offset != Some(o)
                &&& forall|j: int| si <= j < l.len() - 2 ==> #[trigger] l[j].offset == Some(o)
            },
            None => forall|j: int| 0 <= j < l.len() - 2 ==> #[trigger] l[j].offset == Some(o),
        },
{
    lemma_offset_split_scan(l, o, 0);
}

proof fn lemma_offset_split_scan(l: Seq<WrapElemModel>, o: u64, idx: int)
    requires
        0 <= idx <= l.len(),
        forall|j: int| l.len() - idx <= j < l.len() - 2 ==> #[trigger] l[j].offset == Some(o),
    ensures
        match offset_split_from(l, o, idx) {
            Some(si) => {
                &&& 1 <= si <= l.len() - 2
                &&& l[si - 1].offset != Some(o)
                &&& forall|j: int| si <= j < l.len() - 2 ==> #[trigger] l[j].offset == Some(o)
            },
            None => forall|j: int| 0 <= j < l.len() - 2 ==> #[trigger] l[j].offset == Some(o),
        },
    decreases l.len() - idx,
{
    if idx < l.len() {
        let p = l.len() - 1 - idx;
        if !(l[p].offset != Some(o) && idx > 1) {
            lemma_offset_split_scan(l, o, idx + 1);
        }
    }
}

/// A line too wide that is cut at a blank is cut just after its last
/// blank, which is not one of its last two elements; when it is not cut
/// there, its last blank (if any) is one of its last two elements.
pub proof fn lemma_blank_split_after_last_blank(l: Seq<WrapElemModel>)
    ensures
        match blank_split_from(l, 0) {
            Some(si) => {
                &&& 1 <= si <= l.len() - 2
                &&& l[si - 1].c == ' '
                &&& forall|j: int| si <= j < l.len() ==> #[trigger] l[j].c != ' '
            },
            None => forall|j: int|
                0 <= j < l.len() - 2 && #[trigger] l[j].c == ' ' ==> exists|k: int|
                    l.len() - 2 <= k < l.len() && #[trigger] l[k].c == ' ',
        },
{
    lemma_blank_split_scan(l, 0);
}

proof fn lemma_blank_split_scan(l: Seq<WrapElemModel>, idx: int)
    requires
        0 <= idx <= l.len(),
        forall|j: int| l.len() - idx <= j < l.len() ==> #[trigger] l[j].c != ' ',
    ensures
        match blank_split_from(l, idx) {
            Some(si) => {
                &&& 1 <= si <= l.len() - 2
                &&& l[si - 1].c == ' '
                &&& forall|j: int| si <= j < l.len() ==> #[trigger] l[j].c != ' '
            },
            None => forall|j: int|
                0 <= j < l.len() - 2 && #[trigger] l[j].c == ' ' ==> exists|k: int|
                    l.len() - 2 <= k < l.len() && #[trigger] l[k].c == ' ',
        },
    decreases l.len() - idx,
{
    if idx < l.len() {
        let p = l.len() - 1 - idx;
        if l[p].c == ' ' {
            if idx <= 1 {
                assert forall|j: int|
                    0 <= j < l.len() - 2 && #[trigger] l[j].c == ' ' implies exists|k: int|
                    l.len() - 2 <= k < l.len() && #[trigger] l[k].c == ' ' by {
                    assert(l[p].c == ' ');
                }
            }
        } else {
            lemma_blank_split_scan(l, idx + 1);
        }
    }
}

proof fn lemma_blank_split_range(l: Seq<WrapElemModel>, idx: int)
    requires
        0 <= idx,
    ensures
        blank_split_from(l, idx) matches Some(si) ==> 1 <= si <= l.len() - 2,
    decreases l.len() - idx,
{
    if idx < l.len() {
        lemma_blank_split_range(l, idx + 1);
    }
}

} // verus!
