//! Draws vertical rulers: the cells of the given columns get a darker
//! background.

use vstd::prelude::*;
use vstd::string::StrSliceExecFns;

use crate::codepointinfo::{CodepointInfo, TextStyle};
use crate::screen::line::LineCell;
use crate::screen::screen::Screen;
use crate::view::layout::LayoutEnv;

verus! {

/// The background of a ruler cell.
pub open spec fn ruler_cell(c: LineCell) -> LineCell {
    LineCell {
        cpi: CodepointInfo {
            style: TextStyle { bg_color: (40u8, 44u8, 52u8), ..c.cpi.style },
            ..c.cpi
        },
        ..c
    }
}

/// Cell `k` of a line lies on one of the (1-based) `columns`.
pub open spec fn on_ruler(columns: Seq<usize>, k: int) -> bool {
    exists|j: int| 0 <= j < columns.len() && columns[j] >= 1 && columns[j] - 1 == k
}

/// `s` once the cells on the ruler `columns` of the lines of its clipping
/// rectangle were painted.
pub open spec fn ruled(o: Screen, s: Screen, columns: Seq<usize>) -> bool {
    &&& s.wf()
    &&& s.same_but_lines(o)
    &&& forall|r: int|
        0 <= r < o.max_height ==> {
            let a = #[trigger] s.line@[r];
            let b = o.line@[r];
            &&& a.same_layout(b)
            &&& a.cells@.len() == b.cells@.len()
            &&& forall|k: int|
                0 <= k < b.cells@.len() ==> #[trigger] a.cells@[k] == if o.clip.y <= r < o.clip.height
                    && on_ruler(columns, k) {
                    ruler_cell(b.cells@[k])
                } else {
                    b.cells@[k]
                }
        }
}

/// Paints the cells of the (1-based) `columns` of every line of the
/// clipping rectangle; column 0 is ignored.
pub fn draw_ruler(screen: &mut Screen, columns: &Vec<usize>)
    requires
        old(screen).wf(),
    ensures
        ruled(*old(screen), *final(screen), columns@),
{
    let ghost o = *screen;
    let h = screen.height();
    let mut l: usize = 0;
    while l < h
        invariant
            h == o.spec_height(),
            o.wf(),
            0 <= l <= h,
            screen.wf(),
            screen.same_but_lines(o),
            forall|r: int|
                0 <= r < o.max_height ==> {
                    let a = #[trigger] screen.line@[r];
                    let b = o.line@[r];
                    &&& a.same_layout(b)
                    &&& a.cells@.len() == b.cells@.len()
                    &&& forall|k: int|
                        0 <= k < b.cells@.len() ==> #[trigger] a.cells@[k] == if o.clip.y <= r
                            < o.clip.y + l && on_ruler(columns@, k) {
                            ruler_cell(b.cells@[k])
                        } else {
                            b.cells@[k]
                        }
                },
        decreases h - l,
    {
        let ghost s0 = *screen;
        let ghost row = o.clip.y + l;
        if let Some(line) = screen.get_line_mut(l) {
            let ghost line0 = *line;
            let n = columns.len();
            let mut j: usize = 0;
            while j < n
                invariant
                    n == columns@.len(),
                    0 <= j <= n,
                    line.wf(),
                    line.same_layout(line0),
                    line.cells@.len() == line0.cells@.len(),
                    forall|k: int|
                        0 <= k < line0.cells@.len() ==> #[trigger] line.cells@[k] == if exists|i: int|
                            0 <= i < j && columns@[i] >= 1 && columns@[i] - 1 == k {
                            ruler_cell(line0.cells@[k])
                        } else {
                            line0.cells@[k]
                        },
                decreases n - j,
            {
                let col = columns[j];
                if col != 0 && col - 1 < line.cells.len() {
                    let mut cell = line.cells[col - 1];
                    cell.cpi.style.bg_color = (40, 44, 52);
                    line.cells.set(col - 1, cell);
                }
                proof {
                    assert forall|k: int| 0 <= k < line0.cells@.len() implies #[trigger] line.cells@[k]
                        == if exists|i: int|
                        0 <= i < j + 1 && columns@[i] >= 1 && columns@[i] - 1 == k {
                        ruler_cell(line0.cells@[k])
                    } else {
                        line0.cells@[k]
                    } by {
                        if col >= 1 && col - 1 == k {
                            assert(0 <= j < j + 1 && columns@[j as int] >= 1 && columns@[j as int] - 1 == k);
                        }
                        if exists|i: int| 0 <= i < j && columns@[i] >= 1 && columns@[i] - 1 == k {
                            let i = choose|i: int| 0 <= i < j && columns@[i] >= 1 && columns@[i] - 1 == k;
                            assert(0 <= i < j + 1 && columns@[i] >= 1 && columns@[i] - 1 == k);
                        }
                        if exists|i: int| 0 <= i < j + 1 && columns@[i] >= 1 && columns@[i] - 1 == k {
                            let i = choose|i: int| 0 <= i < j + 1 && columns@[i] >= 1 && columns@[i] - 1 == k;
                            if i < j {
                                assert(0 <= i < j && columns@[i] >= 1 && columns@[i] - 1 == k);
                            }
                        }
                    }
                }
                j = j + 1;
            }
            proof {
                assert forall|k: int| 0 <= k < line0.cells@.len() implies (exists|i: int|
                    0 <= i < n && columns@[i] >= 1 && columns@[i] - 1 == k) == on_ruler(
                    columns@,
                    k,
                ) by {}
            }
        }
        proof {
            assert forall|r: int| 0 <= r < o.max_height implies {
                let a = #[trigger] screen.line@[r];
                let b = o.line@[r];
                &&& a.same_layout(b)
                &&& a.cells@.len() == b.cells@.len()
                &&& forall|k: int|
                    0 <= k < b.cells@.len() ==> #[trigger] a.cells@[k] == if o.clip.y <= r < o.clip.y
                        + l + 1 && on_ruler(columns@, k) {
                        ruler_cell(b.cells@[k])
                    } else {
                        b.cells@[k]
                    }
            } by {
                if r != row {
                    assert(screen.line@[r] == s0.line@[r]);
                }
            }
        }
        l = l + 1;
    }
}

/// Whether `c` has the Unicode `White_Space` property: the tabulation to
/// the carriage return (U+0009 to U+000D), the space, U+0085, U+00A0,
/// U+1680, U+2000 to U+200A, U+2028, U+2029, U+202F, U+205F and U+3000.
pub open spec fn unicode_white_space(c: char) -> bool {
    let v = c as u32;
    ||| 0x09 <= v <= 0x0d
    ||| v == 0x20
    ||| v == 0x85
    ||| v == 0xa0
    ||| v == 0x1680
    ||| 0x2000 <= v <= 0x200a
    ||| v == 0x2028
    ||| v == 0x2029
    ||| v == 0x202f
    ||| v == 0x205f
    ||| v == 0x3000
}

/// Whether `c` has the Unicode `White_Space` property, as
/// `char::is_whitespace` answers (see `unicode_white_space`).
fn is_whitespace(c: char) -> (b: bool)
    ensures
        b == unicode_white_space(c),
{
    let v = c as u32;
    (0x09 <= v && v <= 0x0d) || v == 0x20 || v == 0x85 || v == 0xa0 || v == 0x1680 || (0x2000 <= v && v
        <= 0x200a) || v == 0x2028 || v == 0x2029 || v == 0x202f || v == 0x205f || v == 0x3000
}

/// The ASCII blanks `trim_ascii_start` removes: space, tabulation, line
/// feed, form feed, carriage return.
pub open spec fn is_ascii_blank(c: char) -> bool {
    c == ' ' || c == '\t' || c == '\n' || c == '\x0C' || c == '\r'
}

/// The number of ASCII blanks that start `s`.
pub open spec fn leading_blanks(s: Seq<char>) -> int
    decreases s.len(),
{
    if s.len() > 0 && is_ascii_blank(s[0]) {
        1 + leading_blanks(s.drop_first())
    } else {
        0
    }
}

/// `s` without its trailing white space.
pub open spec fn trim_white_end(s: Seq<char>) -> Seq<char>
    decreases s.len(),
{
    if s.len() > 0 && unicode_white_space(s.last()) {
        trim_white_end(s.drop_last())
    } else {
        s
    }
}

/// The comma-separated fields of `s`.
pub open spec fn comma_fields(s: Seq<char>) -> Seq<Seq<char>>
    decreases s.len(),
{
    if s.len() == 0 {
        seq![seq![]]
    } else {
        let r = comma_fields(s.drop_last());
        if s.last() == ',' {
            r.push(seq![])
        } else {
            r.update(r.len() - 1, r.last().push(s.last()))
        }
    }
}

/// The decimal value of the digits `d`.
pub open spec fn decimal_value(d: Seq<char>) -> int
    decreases d.len(),
{
    if d.len() == 0 {
        0
    } else {
        decimal_value(d.drop_last()) * 10 + (d.last() as int - '0' as int)
    }
}

/// `f` without its leading `+`, if any.
pub open spec fn unsigned_digits(f: Seq<char>) -> Seq<char> {
    if f.len() > 0 && f[0] == '+' {
        f.drop_first()
    } else {
        f
    }
}

/// `d` holds decimal digits only.
pub open spec fn all_digits(d: Seq<char>) -> bool {
    forall|i: int| 0 <= i < d.len() ==> '0' <= #[trigger] d[i] <= '9'
}

/// The value of the digits `d` when there are some and it fits a `usize`;
/// 0 for anything else.
pub open spec fn digits_or_zero(d: Seq<char>) -> usize {
    if d.len() > 0 && all_digits(d) && decimal_value(d) <= usize::MAX {
        decimal_value(d) as usize
    } else {
        0
    }
}

/// `f` read as an unsigned integer: an optional `+`, then decimal digits,
/// of a value that fits a `usize`; 0 for anything else.
pub open spec fn column_value(f: Seq<char>) -> usize {
    digits_or_zero(unsigned_digits(f))
}

/// The ruler columns a configuration value gives: its comma-separated
/// fields, once leading ASCII blanks and trailing white space are removed.
pub open spec fn ruler_columns(s: Seq<char>) -> Seq<usize> {
    comma_fields(trim_white_end(s.skip(leading_blanks(s)))).map_values(|f: Seq<char>| column_value(f))
}

proof fn lemma_leading_blanks(s: Seq<char>, i: int)
    requires
        0 <= i <= s.len(),
        forall|k: int| 0 <= k < i ==> is_ascii_blank(#[trigger] s[k]),
        i == s.len() || !is_ascii_blank(s[i]),
    ensures
        leading_blanks(s) == i,
    decreases i,
{
    if i > 0 {
        lemma_leading_blanks(s.drop_first(), i - 1);
    }
}

/// Reads the field `f` (see `column_value`).
fn parse_column(f: &Vec<char>) -> (v: usize)
    ensures
        v == column_value(f@),
{
    let n = f.len();
    let start: usize = if n > 0 && f[0] == '+' {
        1
    } else {
        0
    };
    let ghost d = unsigned_digits(f@);
    if start == n {
        assert(d =~= f@.skip(start as int));
        return 0;
    }
    let mut value: usize = 0;
    let mut i: usize = start;
    while i < n
        invariant
            start <= i <= n,
            n == f@.len(),
            start < n,
            d == f@.skip(start as int),
            d == unsigned_digits(f@),
            forall|k: int| start <= k < i ==> '0' <= #[trigger] f@[k] <= '9',
            value == decimal_value(f@.subrange(start as int, i as int)),
        decreases n - i,
    {
        let c = f[i];
        if c < '0' || c > '9' {
            assert(d[i - start] == f@[i as int]);
            assert(!('0' <= d[i - start] <= '9'));
            return 0;
        }
        let digit = (c as u32 - '0' as u32) as usize;
        assert(f@.subrange(start as int, i + 1).drop_last() =~= f@.subrange(start as int, i as int));
        let mul = value.checked_mul(10);
        match mul {
            None => {
                proof {
                    assert(d.take(i + 1 - start) =~= f@.subrange(start as int, i + 1));
                    if all_digits(d) {
                        lemma_decimal_grows(d, i + 1 - start);
                    }
                }
                return 0;
            },
            Some(m) => {
                match m.checked_add(digit) {
                    None => {
                        proof {
                            assert(d.take(i + 1 - start) =~= f@.subrange(start as int, i + 1));
                            if all_digits(d) {
                                lemma_decimal_grows(d, i + 1 - start);
                            }
                        }
                        return 0;
                    },
                    Some(v) => {
                        value = v;
                    },
                }
            },
        }
        i = i + 1;
    }
    assert(f@.subrange(start as int, n as int) =~= d);
    value
}

/// A number made of more digits is at least as large.
proof fn lemma_decimal_grows(d: Seq<char>, j: int)
    requires
        0 <= j <= d.len(),
        all_digits(d),
    ensures
        decimal_value(d.take(j)) <= decimal_value(d),
        decimal_value(d.take(j)) >= 0,
    decreases d.len(),
{
    if j == d.len() {
        assert(d.take(j) =~= d);
        if d.len() > 0 {
            lemma_decimal_grows(d.drop_last(), j - 1);
            assert(d.drop_last().take(j - 1) =~= d.drop_last());
        }
    } else {
        lemma_decimal_grows(d.drop_last(), j);
        assert(d.drop_last().take(j) =~= d.take(j));
        let p = decimal_value(d.drop_last());
        assert(p * 10 >= p) by (nonlinear_arith)
            requires
                p >= 0,
        ;
    }
}

pub struct TextRuler {
    columns: Vec<usize>,
}

impl TextRuler {
    /// The (1-based) columns of the rulers.
    pub closed spec fn columns(&self) -> Seq<usize> {
        self.columns@
    }

    pub fn new() -> (r: TextRuler)
        ensures
            r.columns() == Seq::<usize>::empty(),
    {
        TextRuler { columns: vec![] }
    }

    /// Takes the columns of the configuration value, when there is one
    /// (see `ruler_columns`).
    pub fn setup(&mut self, ruler_column: Option<&str>)
        ensures
            final(self).columns() == match ruler_column {
                Some(s) => ruler_columns(s@),
                None => old(self).columns(),
            },
    {
        let text = match ruler_column {
            Some(t) => t,
            None => {
                return ;
            },
        };
        let ghost s = text@;
        let n = text.unicode_len();
        let mut a: usize = 0;
        let mut found = false;
        while a < n && !found
            invariant
                n == s.len(),
                s == text@,
                0 <= a <= n,
                forall|k: int| 0 <= k < a ==> is_ascii_blank(#[trigger] s[k]),
                found ==> a < n && !is_ascii_blank(s[a as int]),
            decreases n - a + if found {
                0int
            } else {
                1int
            },
        {
            let c = text.get_char(a);
            if !(c == ' ' || c == '\t' || c == '\n' || c == '\x0C' || c == '\r') {
                found = true;
            } else {
                a = a + 1;
            }
        }
        proof {
            lemma_leading_blanks(s, a as int);
        }
        let mut b: usize = n;
        let mut kept = false;
        assert(s.skip(a as int) =~= s.subrange(a as int, n as int));
        while b > a && !kept
            invariant
                n == s.len(),
                s == text@,
                a <= b <= n,
                trim_white_end(s.skip(a as int)) == trim_white_end(s.subrange(a as int, b as int)),
                kept ==> b > a && !unicode_white_space(s[b - 1]),
            decreases b + if kept {
                0int
            } else {
                1int
            },
        {
            let c = text.get_char(b - 1);
            if !is_whitespace(c) {
                kept = true;
            } else {
                assert(s.subrange(a as int, b as int).drop_last() =~= s.subrange(a as int, b - 1));
                b = b - 1;
            }
        }
        let ghost t = s.subrange(a as int, b as int);
        assert(trim_white_end(t) == t) by {
            if t.len() > 0 {
                assert(t.last() == s[b - 1]);
            }
        }
        let mut columns: Vec<usize> = Vec::new();
        let mut field: Vec<char> = Vec::new();
        let mut i: usize = a;
        while i < b
            invariant
                n == s.len(),
                s == text@,
                a <= i <= b <= n,
                t == s.subrange(a as int, b as int),
                comma_fields(s.subrange(a as int, i as int)).len() == columns@.len() + 1,
                comma_fields(s.subrange(a as int, i as int)).last() == field@,
                forall|k: int|
                    0 <= k < columns@.len() ==> #[trigger] columns@[k] == column_value(
                        comma_fields(s.subrange(a as int, i as int))[k],
                    ),
            decreases b - i,
        {
            let c = text.get_char(i);
            let ghost p = s.subrange(a as int, i as int);
            assert(s.subrange(a as int, i + 1).drop_last() =~= p);
            assert(s.subrange(a as int, i + 1).last() == c);
            if c == ',' {
                let v = parse_column(&field);
                columns.push(v);
                field = Vec::new();
                assert(field@ =~= Seq::<char>::empty());
            } else {
                field.push(c);
            }
            i = i + 1;
        }
        let v = parse_column(&field);
        columns.push(v);
        proof {
            let f = comma_fields(t);
            assert(columns@ =~= f.map_values(|f: Seq<char>| column_value(f)));
        }
        self.columns = columns;
    }

    /// Draws the rulers on the screen, unless it is off screen or there is
    /// none.
    pub fn finish(&mut self, env: &mut LayoutEnv)
        requires
            old(env).screen.wf(),
        ensures
            if old(env).screen.is_off_screen || old(self).columns().len() == 0 {
                final(env).screen == old(env).screen
            } else {
                ruled(old(env).screen, final(env).screen, old(self).columns())
            },
            final(env).quit == old(env).quit,
            *final(self) == *old(self),
    {
        if env.screen.is_off_screen || self.columns.len() == 0 {
            return ;
        }
        draw_ruler(&mut env.screen, &self.columns);
    }
}

} // verus!
