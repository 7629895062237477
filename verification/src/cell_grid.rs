//! A plain grid of code points: lines of a fixed number of columns, filled
//! in order, an end of line closing the line it ends.

use vstd::prelude::*;

use crate::codepointinfo::CodepointInfo;

verus! {

/// A line of code points.
pub struct Line {
    pub chars: Vec<CodepointInfo>,
    pub used: usize,
    pub width: usize,
}

/// A blank cell of the grid.
pub open spec fn blank_cell(c: CodepointInfo) -> bool {
    c.cp == ' ' && c.displayed_cp == ' ' && c.offset is None
}

impl Line {
    pub open spec fn wf(self) -> bool {
        self.chars@.len() == self.width && self.used <= self.width
    }

    fn new(columns: usize) -> (l: Line)
        ensures
            l.wf(),
            l.width == columns,
            l.used == 0,
            forall|i: int| 0 <= i < columns ==> #[trigger] l.chars@[i] == CodepointInfo::spec_new(),
    {
        let mut chars: Vec<CodepointInfo> = Vec::new();
        let mut i: usize = 0;
        while i < columns
            invariant
                i <= columns,
                chars@.len() == i,
                forall|j: int| 0 <= j < i ==> #[trigger] chars@[j] == CodepointInfo::spec_new(),
            decreases columns - i,
        {
            chars.push(CodepointInfo::new());
            i = i + 1;
        }
        Line { chars, used: 0, width: columns }
    }

    fn push(&mut self, cpi: CodepointInfo) -> (r: (bool, usize))
        requires
            old(self).wf(),
        ensures
            final(self).wf(),
            final(self).width == old(self).width,
            r.0 == (old(self).used < old(self).width),
            r.0 ==> final(self).chars@ == old(self).chars@.update(old(self).used as int, cpi)
                && final(self).used == old(self).used + 1,
            !r.0 ==> final(self).chars@ == old(self).chars@ && final(self).used == old(self).used,
            r.1 == final(self).used,
    {
        if self.used < self.width {
            self.chars.set(self.used, cpi);
            self.used += 1;
            (true, self.used)
        } else {
            (false, self.used)
        }
    }

    /// Blanks every cell (code point, displayed code point and offset).
    pub fn clear(&mut self)
        requires
            old(self).wf(),
        ensures
            final(self).wf(),
            final(self).width == old(self).width,
            final(self).used == 0,
            forall|i: int|
                0 <= i < old(self).width ==> {
                    let c = #[trigger] final(self).chars@[i];
                    let o = old(self).chars@[i];
                    &&& blank_cell(c)
                    &&& c.used == o.used
                    &&& c.metadata == o.metadata
                    &&& c.size == o.size
                    &&& c.skip_render == o.skip_render
                    &&& c.style == o.style
                },
    {
        let mut w: usize = 0;
        while w < self.width
            invariant
                self.wf(),
                w <= self.width,
                self.width == old(self).width,
                forall|i: int|
                    0 <= i < old(self).width ==> {
                        let c = #[trigger] self.chars@[i];
                        let o = old(self).chars@[i];
                        if i < w {
                            &&& blank_cell(c)
                            &&& c.used == o.used
                            &&& c.metadata == o.metadata
                            &&& c.size == o.size
                            &&& c.skip_render == o.skip_render
                            &&& c.style == o.style
                        } else {
                            c == o
                        }
                    },
            decreases self.width - w,
        {
            let mut c = self.chars[w];
            c.cp = ' ';
            c.displayed_cp = ' ';
            c.offset = None;
            self.chars.set(w, c);
            w = w + 1;
        }
        self.used = 0;
    }
}

/// The screen is composed of lines.
pub struct Screen {
    pub line: Vec<Line>,
    pub used: usize,
    pub width: usize,
    pub height: usize,
}

impl Screen {
    pub open spec fn wf(self) -> bool {
        &&& self.line@.len() == self.height
        &&& self.used <= self.height
        &&& forall|i: int|
            0 <= i < self.height ==> (#[trigger] self.line@[i]).wf() && self.line@[i].width
                == self.width
    }

    pub fn new(width: usize, height: usize) -> (s: Screen)
        ensures
            s.wf(),
            s.width == width,
            s.height == height,
            s.used == 0,
            forall|i: int| 0 <= i < height ==> (#[trigger] s.line@[i]).used == 0,
            forall|i: int, j: int|
                0 <= i < height && 0 <= j < width ==> #[trigger] s.line@[i].chars@[j]
                    == CodepointInfo::spec_new(),
    {
        let mut line: Vec<Line> = Vec::new();
        let mut i: usize = 0;
        while i < height
            invariant
                i <= height,
                line@.len() == i,
                forall|k: int| 0 <= k < i ==> (#[trigger] line@[k]).wf() && line@[k].width == width && line@[k].used == 0,
                forall|k: int, j: int|
                    0 <= k < i && 0 <= j < width ==> #[trigger] line@[k].chars@[j]
                        == CodepointInfo::spec_new(),
            decreases height - i,
        {
            line.push(Line::new(width));
            i = i + 1;
        }
        Screen { line, used: 0, width, height }
    }

    /// Appends a code point: a full line sends it to the next line, an end
    /// of line closes the line it was pushed in. Returns whether it was
    /// stored and the index of the line now being filled.
    pub fn push(&mut self, cpi: CodepointInfo) -> (r: (bool, usize))
        requires
            old(self).wf(),
        ensures
            final(self).wf(),
            final(self).width == old(self).width,
            final(self).height == old(self).height,
            r.1 == final(self).used,
            old(self).used == old(self).height ==> !r.0 && final(self).used == old(self).used
                && final(self).line@ == old(self).line@,
            old(self).used < old(self).height ==> {
                let u = if old(self).line@[old(self).used as int].used >= old(self).line@[old(self).used as int].width {
                    old(self).used + 1
                } else {
                    old(self).used as int
                };
                if u >= old(self).height {
                    !r.0 && final(self).used == u && final(self).line@ == old(self).line@
                } else {
                    let l = old(self).line@[u];
                    &&& r.0 == (l.used < l.width)
                    &&& final(self).line@[u].width == l.width
                    &&& final(self).line@ == old(self).line@.update(u, final(self).line@[u])
                    &&& r.0 ==> final(self).line@[u].chars@ == l.chars@.update(l.used as int, cpi)
                        && final(self).line@[u].used == l.used + 1
                    &&& !r.0 ==> final(self).line@[u].chars@ == l.chars@ && final(self).line@[u].used == l.used
                    &&& final(self).used == if r.0 && (cpi.cp == '\n' || cpi.cp == '\r') {
                        u + 1
                    } else {
                        u
                    }
                }
            },
    {
        if self.used == self.height {
            return (false, self.used);
        }
        if self.line[self.used].used >= self.line[self.used].width {
            self.used += 1;
        }
        if self.used >= self.height {
            return (false, self.used);
        }
        let cp = cpi.cp;
        let u = self.used;
        let ghost pre = self.line@;
        let (ok, _) = self.line[u].push(cpi);
        proof {
            assert(self.line@ =~= pre.update(u as int, self.line@[u as int]));
            assert forall|i: int| 0 <= i < self.height && i != u implies self.line@[i] == pre[i] by {}
        }
        if ok == true {
            if cp == '\n' || cp == '\r' {
                self.used += 1;
            }
        }
        (ok, self.used)
    }

    /// Blanks every line and restarts the filling from the first one.
    pub fn clear(&mut self)
        requires
            old(self).wf(),
        ensures
            final(self).wf(),
            final(self).width == old(self).width,
            final(self).height == old(self).height,
            final(self).used == 0,
            forall|i: int| 0 <= i < old(self).height ==> (#[trigger] final(self).line@[i]).used == 0,
            forall|i: int, j: int|
                0 <= i < old(self).height && 0 <= j < old(self).width ==> blank_cell(
                    #[trigger] final(self).line@[i].chars@[j],
                ),
    {
        let mut h: usize = 0;
        while h < self.height
            invariant
                self.wf(),
                h <= self.height,
                self.width == old(self).width,
                self.height == old(self).height,
                forall|k: int| 0 <= k < h ==> (#[trigger] self.line@[k]).used == 0,
                forall|k: int, j: int|
                    0 <= k < h && 0 <= j < self.width ==> blank_cell(#[trigger] self.line@[k].chars@[j]),
            decreases self.height - h,
        {
            let ghost pre = self.line@;
            self.line[h].clear();
            proof {
                assert forall|i: int| 0 <= i < self.height && i != h implies self.line@[i] == pre[i] by {}
            }
            h = h + 1;
        }
        self.used = 0;
    }
}

} // verus!
