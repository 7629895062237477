//! Going to a line: the digits typed in the controller view, the line
//! they name, and where the main mark goes.

use vstd::prelude::*;

use crate::buffer::Buffer;
use crate::codec::Utf8Codec;
use crate::mark::Mark;
use crate::modes::line_number::{decimal_string, digit_char};
use crate::screen::screen::Screen;
use crate::text_mode::editing::{encode_chars, encoded};
use crate::text_mode::ruler::{all_digits, decimal_value, unsigned_digits};
use crate::text_mode::text_mode::{PostInputAction, TextModeContext};
use crate::codec::TextCodec;
use crate::view::Id;

verus! {

/// The state of the mode in the text view it moves in.
pub struct GotoLineModeContext {
    pub active: bool,
    pub eof: bool,
    pub goto_line_str: Vec<char>,
    pub controller_view_id: Id,
}

impl GotoLineModeContext {
    pub fn new() -> (c: GotoLineModeContext)
        ensures
            !c.active,
            !c.eof,
            c.goto_line_str@.len() == 0,
            c.controller_view_id == Id(0),
    {
        GotoLineModeContext { active: false, eof: false, goto_line_str: Vec::new(), controller_view_id: Id(0) }
    }

    /// Forgets the digits typed, and leaves the mode.
    pub fn reset(&mut self) -> (r: &mut Self)
        ensures
            r.goto_line_str@.len() == 0,
            !r.eof,
            !r.active,
            r.controller_view_id == old(self).controller_view_id,
            *final(self) == *final(r),
    {
        self.goto_line_str.clear();
        self.eof = false;
        self.active = false;
        self
    }
}

pub struct GotoLineMode {}

impl GotoLineMode {
    pub fn new() -> (m: GotoLineMode) {
        GotoLineMode {  }
    }
}

/// How many bytes of `s` are `b`.
pub open spec fn count_byte(s: Seq<u8>, b: u8) -> nat
    decreases s.len(),
{
    if s.len() == 0 {
        0
    } else {
        count_byte(s.drop_last(), b) + if s.last() == b {
            1nat
        } else {
            0nat
        }
    }
}

pub(crate) proof fn lemma_count_byte_le(s: Seq<u8>, b: u8)
    ensures
        count_byte(s, b) <= s.len(),
    decreases s.len(),
{
    if s.len() > 0 {
        lemma_count_byte_le(s.drop_last(), b);
    }
}

/// Counts the bytes `b` of the document.
pub fn get_byte_count(buffer: &Buffer, b: u8) -> (n: u64)
    ensures
        n == count_byte(buffer@, b),
{
    let mut data: Vec<u8> = Vec::new();
    let size = buffer.size();
    buffer.read(0, size, &mut data);
    proof {
        assert(data@ =~= buffer@) by {
            if size > 0 {
                assert(buffer@.subrange(0, size as int) =~= buffer@);
            }
        }
    }
    let mut count: u64 = 0;
    let mut i: usize = 0;
    while i < size
        invariant
            size == data@.len(),
            data@ == buffer@,
            0 <= i <= size,
            count == count_byte(data@.take(i as int), b),
            count <= i,
        decreases size - i,
    {
        proof {
            assert(data@.take(i + 1).drop_last() =~= data@.take(i as int));
        }
        if data[i] == b {
            count = count + 1;
        }
        i = i + 1;
    }
    assert(data@.take(size as int) =~= data@);
    count
}

/// The offset of the `n`-th byte `b` of the document (counting from 1).
pub fn find_nth_byte_offset(buffer: &Buffer, b: u8, n: u64) -> (r: Option<u64>)
    requires
        n >= 1,
    ensures
        match r {
            Some(p) => p < buffer@.len() && buffer@[p as int] == b && count_byte(buffer@.take(p as int), b) == n
                - 1,
            None => count_byte(buffer@, b) < n,
        },
{
    let mut data: Vec<u8> = Vec::new();
    let size = buffer.size();
    buffer.read(0, size, &mut data);
    proof {
        assert(data@ =~= buffer@) by {
            if size > 0 {
                assert(buffer@.subrange(0, size as int) =~= buffer@);
            }
        }
    }
    let mut count: u64 = 0;
    let mut i: usize = 0;
    while i < size
        invariant
            size == data@.len(),
            data@ == buffer@,
            0 <= i <= size,
            count == count_byte(data@.take(i as int), b),
            count < n,
        decreases size - i,
    {
        proof {
            assert(data@.take(i + 1).drop_last() =~= data@.take(i as int));
        }
        if data[i] == b {
            if count + 1 == n {
                return Some(i as u64);
            }
            count = count + 1;
        }
        i = i + 1;
    }
    assert(data@.take(size as int) =~= data@);
    None
}

/// The text read as an unsigned integer: an optional `+`, then decimal
/// digits, of a value that fits a `u64`; 0 for anything else.
pub open spec fn u64_value(s: Seq<char>) -> u64 {
    let d = unsigned_digits(s);
    if d.len() > 0 && all_digits(d) && decimal_value(d) <= u64::MAX {
        decimal_value(d) as u64
    } else {
        0
    }
}

proof fn lemma_decimal_nonneg_grows(d: Seq<char>)
    requires
        all_digits(d),
        d.len() > 0,
    ensures
        decimal_value(d.drop_last()) <= decimal_value(d),
        0 <= decimal_value(d.drop_last()),
    decreases d.len(),
{
    if d.len() > 1 {
        lemma_decimal_nonneg_grows(d.drop_last());
    }
    let p = decimal_value(d.drop_last());
    assert(p * 10 >= p) by (nonlinear_arith)
        requires
            p >= 0,
    ;
}

/// Reading back the decimal writing of a number, as the line numbers are
/// written, gives the number.
pub proof fn lemma_read_back_decimal(v: u64)
    ensures
        u64_value(decimal_string(v as nat)) == v,
{
    lemma_decimal_string_value(v as nat);
    let d = decimal_string(v as nat);
    assert(d[0] != '+');
    assert(unsigned_digits(d) == d);
}

proof fn lemma_decimal_string_value(n: nat)
    ensures
        decimal_string(n).len() > 0,
        all_digits(decimal_string(n)),
        decimal_value(decimal_string(n)) == n,
        '0' <= decimal_string(n)[0] <= '9',
    decreases n,
{
    if n < 10 {
        let c = digit_char(n);
        assert(c as int == n + 48);
        assert(decimal_string(n).drop_last() =~= Seq::<char>::empty());
        assert('0' as int == 48);
        assert(decimal_value(decimal_string(n)) == decimal_value(Seq::<char>::empty()) * 10 + (c as int
            - '0' as int));
    } else {
        lemma_decimal_string_value(n / 10);
        let d = decimal_string(n);
        let c = digit_char(n % 10);
        assert(c as int == n % 10 + 48);
        assert(d.drop_last() =~= decimal_string(n / 10));
        assert(d.last() == c);
        assert(d[0] == decimal_string(n / 10)[0]);
        assert((n / 10) * 10 + n % 10 == n) by (nonlinear_arith);
        assert('0' as int == 48);
        assert(decimal_value(d) == decimal_value(d.drop_last()) * 10 + (d.last() as int - '0' as int));
    }
}

/// Reads `s` as an unsigned integer (see `u64_value`).
pub fn parse_u64_or_zero(s: &Vec<char>) -> (v: u64)
    ensures
        v == u64_value(s@),
{
    let n = s.len();
    let start: usize = if n > 0 && s[0] == '+' {
        1
    } else {
        0
    };
    let ghost d = unsigned_digits(s@);
    assert(d =~= s@.skip(start as int));
    if start == n {
        return 0;
    }
    let mut value: u64 = 0;
    let mut i: usize = start;
    while i < n
        invariant
            start <= i <= n,
            n == s@.len(),
            start < n,
            d == s@.skip(start as int),
            d == unsigned_digits(s@),
            forall|k: int| start <= k < i ==> '0' <= #[trigger] s@[k] <= '9',
            value == decimal_value(s@.subrange(start as int, i as int)),
        decreases n - i,
    {
        let c = s[i];
        if c < '0' || c > '9' {
            assert(d[i - start] == s@[i as int]);
            assert(!('0' <= d[i - start] <= '9'));
            return 0;
        }
        let digit = (c as u32 - '0' as u32) as u64;
        assert(s@.subrange(start as int, i + 1).drop_last() =~= s@.subrange(start as int, i as int));
        let big = value > (u64::MAX - digit) / 10;
        if big {
            proof {
                assert(value * 10 + digit > u64::MAX) by (nonlinear_arith)
                    requires
                        value > (u64::MAX - digit) / 10,
                        digit <= 9,
                ;
                if all_digits(d) {
                    lemma_prefix_value_le(d, i + 1 - start);
                    assert(d.take(i + 1 - start) =~= s@.subrange(start as int, i + 1));
                    assert(decimal_value(s@.subrange(start as int, i + 1)) == value * 10 + digit);
                }
            }
            return 0;
        }
        assert(value * 10 + digit <= u64::MAX) by (nonlinear_arith)
            requires
                value <= (u64::MAX - digit) / 10,
                digit <= 9,
        ;
        value = value * 10 + digit;
        i = i + 1;
    }
    assert(s@.subrange(start as int, n as int) =~= d);
    value
}

/// A prefix of digits has a value no larger than the whole.
proof fn lemma_prefix_value_le(d: Seq<char>, j: int)
    requires
        0 <= j <= d.len(),
        all_digits(d),
    ensures
        decimal_value(d.take(j)) <= decimal_value(d),
    decreases d.len() - j,
{
    if j < d.len() {
        lemma_prefix_value_le(d, j + 1);
        let t = d.take(j + 1);
        assert(t.drop_last() =~= d.take(j));
        assert(all_digits(t));
        lemma_decimal_nonneg_grows(t);
    } else {
        assert(d.take(j) =~= d);
    }
}

/// The text the controller view shows: `Goto: ` and the digits typed.
pub open spec fn goto_prompt(s: Seq<char>) -> Seq<u8> {
    encoded(&Utf8Codec {  }, seq!['G', 'o', 't', 'o', ':', ' '] + s)
}

/// Writes, in the controller's document `doc`, the text `head` followed by
/// `s`, encoded in UTF-8.
pub(crate) fn write_prompt(doc: &mut Buffer, head: Vec<char>, s: &Vec<char>)
    requires
        encoded(&Utf8Codec {  }, head@ + s@).len() <= usize::MAX,
    ensures
        final(doc)@ == encoded(&Utf8Codec {  }, head@ + s@),
{
    let mut chars = head;
    let ghost h = chars@;
    let n = s.len();
    let mut i: usize = 0;
    while i < n
        invariant
            n == s@.len(),
            0 <= i <= n,
            chars@ == h + s@.take(i as int),
        decreases n - i,
    {
        chars.push(s[i]);
        i = i + 1;
        assert(chars@ =~= h + s@.take(i as int));
    }
    assert(s@.take(n as int) =~= s@);
    let codec = Utf8Codec::new();
    let bytes = encode_chars(&codec, &chars);
    *doc = Buffer::from_bytes(bytes.as_slice());
}

/// Writes the prompt of the digits `s` in the controller's document.
pub fn show_goto_prompt(doc: &mut Buffer, s: &Vec<char>)
    requires
        goto_prompt(s@).len() <= usize::MAX,
    ensures
        final(doc)@ == goto_prompt(s@),
{
    let head: Vec<char> = vec!['G', 'o', 't', 'o', ':', ' '];
    assert(head@ =~= seq!['G', 'o', 't', 'o', ':', ' ']);
    write_prompt(doc, head, s);
}

/// A key the controller takes: a digit, but no leading zero.
pub open spec fn goto_accepts(typed: nat, c: char) -> bool {
    '0' <= c <= '9' && ((typed == 0 && c != '0') || typed > 0)
}

/// Adds the digit `c` to the line typed, shows it in the controller's
/// document `doc`, and returns the line to go to in the document `text`
/// (`goto_line_controller_add_char` then moves the mark there):
/// the number typed, or the line after the last one when it is beyond
/// (`eof` then records that). A key that is no digit, a leading zero, or
/// any key once past the last line, is ignored (`None`).
pub fn goto_line_target_after_char(
    gtm: &mut GotoLineModeContext,
    text: &Buffer,
    doc: &mut Buffer,
    c: char,
) -> (r: Option<u64>)
    requires
        goto_prompt(old(gtm).goto_line_str@.push(c)).len() <= usize::MAX,
    ensures
        final(gtm).active == old(gtm).active,
        final(gtm).controller_view_id == old(gtm).controller_view_id,
        !goto_accepts(old(gtm).goto_line_str@.len(), c) || old(gtm).eof ==> r is None && *final(gtm) == *old(gtm)
            && final(doc)@ == old(doc)@,
        goto_accepts(old(gtm).goto_line_str@.len(), c) && !old(gtm).eof ==> {
            let s = old(gtm).goto_line_str@.push(c);
            let n = u64_value(s);
            let nb = count_byte(text@, 0x0a);
            &&& final(gtm).goto_line_str@ == s
            &&& final(gtm).eof == (n > nb)
            &&& final(doc)@ == goto_prompt(s)
            &&& r == Some(if n <= nb { n } else { (nb + 1) as u64 })
        },
{
    let len = gtm.goto_line_str.len();
    if !(c >= '0' && c <= '9' && ((len == 0 && c != '0') || len > 0)) {
        return None;
    }
    let nb_lines = get_byte_count(text, 0x0a);
    if gtm.eof {
        return None;
    }
    gtm.goto_line_str.push(c);
    let n = parse_u64_or_zero(&gtm.goto_line_str);
    show_goto_prompt(doc, &gtm.goto_line_str);
    gtm.eof = n > nb_lines;
    if n <= nb_lines {
        Some(n)
    } else {
        Some(nb_lines + 1)
    }
}

/// Removes the last digit typed, shows the rest, and returns the line it
/// names, unless that is past the last line of `text` (`eof` records it;
/// `goto_line_controller_del_char` then moves the mark there).
pub fn goto_line_target_after_del(gtm: &mut GotoLineModeContext, text: &Buffer, doc: &mut Buffer) -> (r: Option<
    u64,
>)
    requires
        goto_prompt(old(gtm).goto_line_str@).len() <= usize::MAX,
    ensures
        final(gtm).active == old(gtm).active,
        final(gtm).controller_view_id == old(gtm).controller_view_id,
        ({
            let s = if old(gtm).goto_line_str@.len() > 0 {
                old(gtm).goto_line_str@.drop_last()
            } else {
                old(gtm).goto_line_str@
            };
            let n = u64_value(s);
            let nb = count_byte(text@, 0x0a);
            &&& final(gtm).goto_line_str@ == s
            &&& final(gtm).eof == (n > nb)
            &&& final(doc)@ == goto_prompt(s)
            &&& r == if n > nb {
                None
            } else {
                Some(n)
            }
        }),
{
    let nb_lines = get_byte_count(text, 0x0a);
    let ghost before = gtm.goto_line_str@;
    gtm.goto_line_str.pop();
    proof {
        if before.len() > 0 {
            assert(gtm.goto_line_str@ =~= before.drop_last());
        }
        assert(goto_prompt(gtm.goto_line_str@).len() <= usize::MAX) by {
            if before.len() > 0 {
                lemma_prompt_shrinks(before);
            }
        }
    }
    let n = parse_u64_or_zero(&gtm.goto_line_str);
    gtm.eof = n > nb_lines;
    show_goto_prompt(doc, &gtm.goto_line_str);
    if n > nb_lines {
        None
    } else {
        Some(n)
    }
}

/// The prompt of fewer digits is not longer.
proof fn lemma_prompt_shrinks(s: Seq<char>)
    requires
        s.len() > 0,
    ensures
        goto_prompt(s.drop_last()).len() <= goto_prompt(s).len(),
{
    let h = seq!['G', 'o', 't', 'o', ':', ' '];
    assert((h + s).drop_last() =~= h + s.drop_last());
}

/// Leaves the mode: the digits are forgotten and the controller shows the
/// bare prompt.
pub fn goto_line_controller_stop(gtm: &mut GotoLineModeContext, doc: &mut Buffer)
    ensures
        final(gtm).goto_line_str@.len() == 0,
        !final(gtm).eof,
        !final(gtm).active,
        final(gtm).controller_view_id == old(gtm).controller_view_id,
        final(doc)@ == goto_prompt(Seq::empty()),
{
    gtm.reset();
    proof {
        let h = seq!['G', 'o', 't', 'o', ':', ' '];
        assert(h + Seq::<char>::empty() =~= h);
        reveal_with_fuel(encoded, 7);
        assert(encoded(&Utf8Codec {  }, h).len() <= 24) by {
            lemma_encoded_len(&Utf8Codec {  }, h);
        }
    }
    show_goto_prompt(doc, &gtm.goto_line_str);
}

/// Each code point takes four bytes at most.
pub(crate) proof fn lemma_encoded_len<C: TextCodec>(codec: &C, s: Seq<char>)
    requires
        forall|c: u32| #[trigger] codec.spec_encode(c).len() <= 4,
    ensures
        encoded(codec, s).len() <= 4 * s.len(),
    decreases s.len(),
{
    if s.len() > 0 {
        lemma_encoded_len(codec, s.drop_last());
    }
}

/// Where the main mark goes for the line `target_line` (counting from 1)
/// of `buf`: the start of that line, the start of the document for the
/// first line, or the end when the document has fewer lines.
pub open spec fn line_start_offset(buf: Seq<u8>, target_line: u64, found: Option<u64>) -> u64 {
    if target_line <= 1 {
        0
    } else {
        match found {
            Some(o) => (o + 1) as u64,
            None => buf.len() as u64,
        }
    }
}

/// Puts a single main mark at the start of the line `target_line`; the
/// view starts there when the screen does not show it. Returns the action
/// that centers the view on the mark, for the caller to run.
pub fn goto_line_set_target_line<C: TextCodec>(
    tm: &mut TextModeContext<C>,
    buffer: &Buffer,
    screen: &Screen,
    start_offset: &mut u64,
    target_line: u64,
) -> (r: PostInputAction)
    requires
        screen.wf(),
        screen.covers_its_range(),
    ensures
        r == PostInputAction::CenterAroundMainMark,
        final(tm).same_but_marks(*old(tm)),
        final(tm).pre_compose_action == old(tm).pre_compose_action,
        final(tm).prev_action == old(tm).prev_action,
        final(tm).mark_index == 0,
        final(tm).marks@.len() == 1,
        target_line <= 1 ==> final(tm).marks@[0].offset == 0,
        target_line > 1 ==> {
            let o = final(tm).marks@[0].offset;
            ||| (o == buffer@.len() && count_byte(buffer@, 0x0a) < target_line - 1)
            ||| (0 < o <= buffer@.len() && buffer@[o - 1] == 0x0a && count_byte(buffer@.take(o - 1), 0x0a)
                == target_line - 2)
        },
        *final(start_offset) == if screen.offset_in_range(final(tm).marks@[0].offset) {
            *old(start_offset)
        } else {
            final(tm).marks@[0].offset
        },
{
    let max_offset = buffer.size() as u64;
    let offset = if target_line <= 1 {
        0
    } else {
        match find_nth_byte_offset(buffer, 0x0a, target_line - 1) {
            Some(o) => o + 1,
            None => max_offset,
        }
    };
    if !screen.contains_offset(offset) {
        *start_offset = offset;
    }
    tm.marks.clear();
    tm.marks.push(Mark { offset });
    tm.mark_index = 0;
    PostInputAction::CenterAroundMainMark
}

/// The offset `o` is where the main mark goes for the line `target_line`
/// of `buf` (counting from 1): the start of the document for the first
/// line; otherwise just after the line feed that ends the line before, or
/// the end of the document when it has fewer lines.
pub open spec fn at_line_start(buf: Seq<u8>, target_line: u64, o: u64) -> bool {
    if target_line <= 1 {
        o == 0
    } else {
        ||| (o == buf.len() && count_byte(buf, 0x0a) < target_line - 1)
        ||| (0 < o <= buf.len() && buf[o - 1] == 0x0a && count_byte(buf.take(o - 1), 0x0a) == target_line - 2)
    }
}

/// Adds the digit `c` to the line typed and shows it in the controller's
/// document `doc` (see `goto_line_target_after_char`); when the key is
/// taken, a single main mark of the text view goes to the start of the
/// line named (or of the line after the last one, past the end), the view
/// starting there when its screen does not show it, and the action that
/// centers the view on the mark is returned.
pub fn goto_line_controller_add_char<C: TextCodec>(
    gtm: &mut GotoLineModeContext,
    tm: &mut TextModeContext<C>,
    text: &Buffer,
    screen: &Screen,
    start_offset: &mut u64,
    doc: &mut Buffer,
    c: char,
) -> (r: Option<PostInputAction>)
    requires
        goto_prompt(old(gtm).goto_line_str@.push(c)).len() <= usize::MAX,
        screen.wf(),
        screen.covers_its_range(),
    ensures
        final(gtm).active == old(gtm).active,
        final(gtm).controller_view_id == old(gtm).controller_view_id,
        !goto_accepts(old(gtm).goto_line_str@.len(), c) || old(gtm).eof ==> {
            &&& r is None
            &&& *final(gtm) == *old(gtm)
            &&& final(doc)@ == old(doc)@
            &&& *final(tm) == *old(tm)
            &&& *final(start_offset) == *old(start_offset)
        },
        goto_accepts(old(gtm).goto_line_str@.len(), c) && !old(gtm).eof ==> {
            let s = old(gtm).goto_line_str@.push(c);
            let n = u64_value(s);
            let nb = count_byte(text@, 0x0a);
            let target = if n <= nb {
                n
            } else {
                (nb + 1) as u64
            };
            let o = final(tm).marks@[0].offset;
            &&& final(gtm).goto_line_str@ == s
            &&& final(gtm).eof == (n > nb)
            &&& final(doc)@ == goto_prompt(s)
            &&& r == Some(PostInputAction::CenterAroundMainMark)
            &&& final(tm).same_but_marks(*old(tm))
            &&& final(tm).pre_compose_action == old(tm).pre_compose_action
            &&& final(tm).prev_action == old(tm).prev_action
            &&& final(tm).mark_index == 0
            &&& final(tm).marks@.len() == 1
            &&& at_line_start(text@, target, o)
            &&& *final(start_offset) == if screen.offset_in_range(o) {
                *old(start_offset)
            } else {
                o
            }
        },
{
    match goto_line_target_after_char(gtm, text, doc, c) {
        Some(target) => Some(goto_line_set_target_line(tm, text, screen, start_offset, target)),
        None => None,
    }
}

/// Removes the last digit typed and shows the rest (see
/// `goto_line_target_after_del`); when the line it names is not past the
/// last line, a single main mark of the text view goes to its start, the
/// view starting there when its screen does not show it, and the action
/// that centers the view on the mark is returned.
pub fn goto_line_controller_del_char<C: TextCodec>(
    gtm: &mut GotoLineModeContext,
    tm: &mut TextModeContext<C>,
    text: &Buffer,
    screen: &Screen,
    start_offset: &mut u64,
    doc: &mut Buffer,
) -> (r: Option<PostInputAction>)
    requires
        goto_prompt(old(gtm).goto_line_str@).len() <= usize::MAX,
        screen.wf(),
        screen.covers_its_range(),
    ensures
        final(gtm).active == old(gtm).active,
        final(gtm).controller_view_id == old(gtm).controller_view_id,
        ({
            let s = if old(gtm).goto_line_str@.len() > 0 {
                old(gtm).goto_line_str@.drop_last()
            } else {
                old(gtm).goto_line_str@
            };
            let n = u64_value(s);
            let nb = count_byte(text@, 0x0a);
            let o = final(tm).marks@[0].offset;
            &&& final(gtm).goto_line_str@ == s
            &&& final(gtm).eof == (n > nb)
            &&& final(doc)@ == goto_prompt(s)
            &&& n > nb ==> r is None && *final(tm) == *old(tm) && *final(start_offset) == *old(start_offset)
            &&& n <= nb ==> {
                &&& r == Some(PostInputAction::CenterAroundMainMark)
                &&& final(tm).same_but_marks(*old(tm))
                &&& final(tm).pre_compose_action == old(tm).pre_compose_action
                &&& final(tm).prev_action == old(tm).prev_action
                &&& final(tm).mark_index == 0
                &&& final(tm).marks@.len() == 1
                &&& at_line_start(text@, n, o)
                &&& *final(start_offset) == if screen.offset_in_range(o) {
                    *old(start_offset)
                } else {
                    o
                }
            }
        }),
{
    match goto_line_target_after_del(gtm, text, doc) {
        Some(target) => Some(goto_line_set_target_line(tm, text, screen, start_offset, target)),
        None => None,
    }
}

} // verus!
