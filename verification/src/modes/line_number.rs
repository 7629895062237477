//! Line numbers beside a text view: how many digits a number takes, the
//! label of each line in each display mode, and what a click in the
//! margin does.

use vstd::prelude::*;

use crate::buffer::Buffer;
use crate::codec::TextCodec;
use crate::modes::goto_line_mode::{count_byte, get_byte_count, lemma_count_byte_le};
use crate::mark::Mark;
use crate::screen::screen::Screen;
use crate::text_mode::text_mode::TextModeContext;
use crate::view::Id;

verus! {

/// The decimal digit of `d`.
pub open spec fn digit_char(d: nat) -> char {
    (d + 48) as char
}

/// The decimal writing of `n`, without leading zeros.
pub open spec fn decimal_string(n: nat) -> Seq<char>
    decreases n,
{
    if n < 10 {
        seq![digit_char(n)]
    } else {
        decimal_string(n / 10).push(digit_char(n % 10))
    }
}

/// How many digits the decimal writing of `v` has.
pub fn num_digit(v: u64) -> (n: u64)
    ensures
        n == decimal_string(v as nat).len(),
        1 <= n <= 20,
{
    proof {
        reveal_with_fuel(ten_pow, 21);
        assert(ten_pow(20) == 100000000000000000000);
        lemma_decimal_len(v as nat, 20);
    }
    let mut n: u64 = 1;
    let mut r: u64 = v;
    while r >= 10
        invariant
            1 <= n,
            n + r <= v + 1,
            decimal_string(v as nat).len() == n - 1 + decimal_string(r as nat).len(),
        decreases r,
    {
        proof {
            lemma_decimal_step(r as nat);
        }
        r = r / 10;
        n = n + 1;
    }
    n
}

/// Ten to the power `k`.
pub open spec fn ten_pow(k: nat) -> nat
    decreases k,
{
    if k == 0 {
        1
    } else {
        10 * ten_pow((k - 1) as nat)
    }
}

/// A number below ten to the power `k` has at most `k` digits.
proof fn lemma_decimal_len(x: nat, k: nat)
    requires
        k >= 1,
        x < ten_pow(k),
    ensures
        decimal_string(x).len() <= k,
    decreases k,
{
    if x >= 10 {
        if k == 1 {
            reveal_with_fuel(ten_pow, 2);
            assert(ten_pow(1) == 10);
        } else {
            let t = ten_pow((k - 1) as nat);
            assert(x / 10 < t) by (nonlinear_arith)
                requires
                    x < 10 * t,
            ;
            lemma_decimal_len(x / 10, (k - 1) as nat);
            lemma_decimal_step(x);
        }
    }
}

proof fn lemma_decimal_step(r: nat)
    requires
        r >= 10,
    ensures
        decimal_string(r) == decimal_string(r / 10).push(digit_char(r % 10)),
        decimal_string(r).len() == 1 + decimal_string(r / 10).len(),
{
}

/// Writes `v` in decimal.
pub fn decimal_chars(v: u64) -> (s: Vec<char>)
    ensures
        s@ == decimal_string(v as nat),
{
    let mut rev: Vec<char> = Vec::new();
    let mut r: u64 = v;
    let ghost mut done: Seq<char> = Seq::empty();
    assert(decimal_string(v as nat) =~= decimal_string(r as nat) + done);
    while r >= 10
        invariant
            decimal_string(v as nat) == decimal_string(r as nat) + done,
            rev@ == done.reverse(),
        decreases r,
    {
        let c = ((r % 10 + 48) as u8) as char;
        proof {
            lemma_decimal_step(r as nat);
            assert(c == digit_char((r % 10) as nat));
            let old_done = done;
            done = seq![c] + done;
            assert(done.reverse() =~= old_done.reverse().push(c));
            assert(decimal_string((r / 10) as nat).push(c) + old_done =~= decimal_string((r / 10) as nat) + done);
        }
        rev.push(c);
        r = r / 10;
    }
    let c = ((r + 48) as u8) as char;
    proof {
        assert(c == digit_char(r as nat));
        assert(decimal_string(r as nat) =~= seq![c]);
        let old_done = done;
        done = seq![c] + done;
        assert(done.reverse() =~= old_done.reverse().push(c));
    }
    rev.push(c);
    let mut s: Vec<char> = Vec::new();
    let n = rev.len();
    let mut i: usize = 0;
    while i < n
        invariant
            n == rev@.len(),
            0 <= i <= n,
            s@ == rev@.reverse().take(i as int),
        decreases n - i,
    {
        s.push(rev[n - 1 - i]);
        i = i + 1;
        assert(s@ =~= rev@.reverse().take(i as int));
    }
    assert(rev@.reverse().take(n as int) =~= rev@.reverse());
    assert(done.reverse().reverse() =~= done);
    s
}

/// The label of the line numbered `cur` when the main mark is on the line
/// numbered `mark`, and whether it is padded to the right of the margin:
/// the absolute number in mode 0; otherwise the distance to the mark's
/// line, and on the mark's line `0` in mode 1 or its number in the other
/// modes, then not padded.
pub open spec fn line_label(display_mode: usize, mark: u64, cur: u64) -> (Seq<char>, bool) {
    if display_mode > 0 {
        if mark > cur {
            (decimal_string((mark - cur) as nat), true)
        } else if mark < cur {
            (decimal_string((cur - mark) as nat), true)
        } else if display_mode == 1 {
            (seq!['0'], false)
        } else {
            (decimal_string(mark as nat), false)
        }
    } else {
        (decimal_string(cur as nat), true)
    }
}

/// The label of a line (see `line_label`).
pub fn line_number_label(display_mode: usize, mark_line: u64, cur_line_num: u64) -> (r: (Vec<char>, bool))
    ensures
        (r.0@, r.1) == line_label(display_mode, mark_line, cur_line_num),
{
    if display_mode > 0 {
        if mark_line > cur_line_num {
            (decimal_chars(mark_line - cur_line_num), true)
        } else if mark_line < cur_line_num {
            (decimal_chars(cur_line_num - mark_line), true)
        } else if display_mode == 1 {
            let mut z: Vec<char> = Vec::new();
            z.push('0');
            (z, false)
        } else {
            (decimal_chars(mark_line), false)
        }
    } else {
        (decimal_chars(cur_line_num), true)
    }
}

/// The state of the line number mode in its margin view.
pub struct LineNumberModeContext {
    pub linenum_view_id: Id,
    pub text_view_id: Id,
    /// 0: absolute numbers, 1: relative, 2: hybrid, 3: offsets.
    pub display_mode: usize,
    pub start_line: Option<u64>,
    pub start_col: Option<u64>,
}

pub struct LineNumberMode {}

impl LineNumberMode {
    pub fn new() -> (m: LineNumberMode) {
        LineNumberMode {  }
    }

    /// The state of the mode in a new view: following no view yet, with
    /// absolute numbers.
    pub fn alloc_ctx(&self) -> (ctx: LineNumberModeContext)
        ensures
            ctx.linenum_view_id == Id(0),
            ctx.text_view_id == Id(0),
            ctx.display_mode == 0,
            ctx.start_line is None,
            ctx.start_col is None,
    {
        LineNumberModeContext {
            linenum_view_id: Id(0),
            text_view_id: Id(0),
            display_mode: 0,
            start_line: None,
            start_col: None,
        }
    }
}

/// A button pressed in the margin: the second button goes to the next
/// display mode. Returns whether the text view gets the focus back.
pub fn linenum_button_press(ctx: &mut LineNumberModeContext, button: u32) -> (focus: bool)
    ensures
        focus == (button == 1),
        final(ctx).display_mode == if button == 1 {
            ((old(ctx).display_mode + 1) % 4) as usize
        } else {
            old(ctx).display_mode
        },
        final(ctx).text_view_id == old(ctx).text_view_id,
        final(ctx).linenum_view_id == old(ctx).linenum_view_id,
{
    if button == 1 {
        ctx.display_mode = ((ctx.display_mode % 4) + 1) % 4;
        true
    } else {
        false
    }
}

/// A button released on the line `y` of the margin: but for the second
/// button, the text view gets the focus back and a single mark goes to the
/// start of the line the text view shows there. Returns whether the focus
/// moves.
pub fn linenum_button_release<C: TextCodec>(
    tm: &mut TextModeContext<C>,
    text_screen: &Screen,
    button: u32,
    y: usize,
) -> (focus: bool)
    requires
        text_screen.wf(),
    ensures
        focus == (button != 1),
        final(tm).same_but_marks(*old(tm)),
        final(tm).mark_index == old(tm).mark_index,
        final(tm).pre_compose_action == old(tm).pre_compose_action,
        final(tm).prev_action == old(tm).prev_action,
        button != 1 && text_screen.cell_is_used(0, y as int) && text_screen.cell_xy(0, y as int).cpi.offset
            is Some ==> final(tm).marks@ == seq![Mark { offset: text_screen.cell_xy(0, y as int).cpi.offset->0 }],
        !(button != 1 && text_screen.cell_is_used(0, y as int) && text_screen.cell_xy(0, y as int).cpi.offset
            is Some) ==> final(tm).marks == old(tm).marks,
{
    if button == 1 {
        return false;
    }
    let offset = match text_screen.get_used_cpinfo(0, y) {
        Some(cpi) => cpi.offset,
        None => None,
    };
    match offset {
        Some(o) => {
            tm.marks.clear();
            tm.marks.push(Mark::new(o));
        },
        None => {},
    }
    true
}

/// The width of the margin beside a view of the document `buf`: `@` and
/// the digits of the offset past its end when it has no line index or in
/// the offset display mode (3), otherwise the digits of its number of
/// lines (its line feeds and one).
pub open spec fn margin_width(buf: Seq<u8>, indexed: bool, display_mode: usize) -> nat {
    if !indexed || display_mode == 3 {
        1 + decimal_string((buf.len() + 1) as nat).len()
    } else {
        decimal_string((count_byte(buf, 0x0a) + 1) as nat).len()
    }
}

/// The width of the margin beside a view of `buffer` (see `margin_width`).
pub fn line_number_margin_width(buffer: &Buffer, indexed: bool, display_mode: usize) -> (w: u64)
    requires
        buffer@.len() < u64::MAX,
    ensures
        w == margin_width(buffer@, indexed, display_mode),
{
    if !indexed || display_mode == 3 {
        let max_offset = buffer.size() as u64 + 1;
        1 + num_digit(max_offset)
    } else {
        let count = get_byte_count(buffer, 0x0a);
        proof {
            lemma_count_byte_le(buffer@, 0x0a);
        }
        num_digit(count + 1)
    }
}

/// The margin view `dst` follows the text view `src`: both are recorded,
/// unless the view follows itself or either is no view (`Id(0)`). Returns
/// whether they were.
pub fn linenum_subscribe(ctx: &mut LineNumberModeContext, src: Id, dst: Id) -> (done: bool)
    ensures
        done == (src != dst && src != Id(0) && dst != Id(0)),
        done ==> final(ctx).text_view_id == src && final(ctx).linenum_view_id == dst,
        !done ==> *final(ctx) == *old(ctx),
        final(ctx).display_mode == old(ctx).display_mode,
{
    if src == dst || src == Id(0) || dst == Id(0) {
        return false;
    }
    ctx.text_view_id = src;
    ctx.linenum_view_id = dst;
    true
}

} // verus!
