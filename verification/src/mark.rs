//! Marks: positions in a document, moved code point by code point, by line
//! or by token through a text codec.

use vstd::prelude::*;

use crate::buffer::{occurs_at, Buffer};
use crate::codec::{
    is_scalar, lemma_utf8_back_round_trip, lemma_utf8_round_trip, lemma_utf8_round_trip_within, utf8_back_len,
    utf8_encode, utf8_seq_len, utf8_value, SyncDirection, TextCodec, Utf8Codec,
};

verus! {

#[derive(Debug, Copy, Clone, Ord, Eq, PartialOrd, PartialEq)]
pub struct Mark {
    pub offset: u64,
}

pub open spec fn spec_is_blank(cp: char) -> bool {
    cp == ' ' || cp == '\n' || cp == '\t'
}

pub open spec fn spec_is_end_of_line(cp: char) -> bool {
    cp == '\n'
}

fn is_blank(cp: char) -> (b: bool)
    ensures
        b == spec_is_blank(cp),
{
    match cp {
        ' ' | '\n' | '\t' => true,
        _ => false,
    }
}

fn is_end_of_line(cp: char) -> (b: bool)
    ensures
        b == spec_is_end_of_line(cp),
{
    match cp {
        '\n' => true,
        _ => false,
    }
}

/// The bytes a read of (up to) 4 bytes at `at` gets.
pub open spec fn read_window(buf: Seq<u8>, at: int) -> Seq<u8> {
    if at >= buf.len() {
        Seq::empty()
    } else if at + 4 <= buf.len() {
        buf.subrange(at, at + 4)
    } else {
        buf.subrange(at, buf.len() as int)
    }
}

/// The code point read forward at `from`: ('\0', 0, 0) at the end.
pub open spec fn char_forward<C: TextCodec>(codec: &C, buf: Seq<u8>, from: int) -> (char, u64, usize) {
    if from == buf.len() {
        ('\0', 0u64, 0usize)
    } else {
        codec.spec_decode(SyncDirection::Forward, read_window(buf, from), 0)
    }
}

/// Where a backward read at `from` starts reading.
pub open spec fn rewind_offset(from: int) -> int {
    if from >= 4 {
        from - 4
    } else {
        0
    }
}

/// The code point read backward at `from`, with the offset it starts at
/// and its size: ('\0', 0, 0) at the start.
pub open spec fn char_backward<C: TextCodec>(codec: &C, buf: Seq<u8>, from: int) -> (char, u64, usize) {
    if from == 0 {
        ('\0', 0u64, 0usize)
    } else {
        let rw = rewind_offset(from);
        let ret = codec.spec_decode(SyncDirection::Backward, read_window(buf, rw), from - rw);
        (ret.0, (from - ret.2) as u64, ret.2)
    }
}

/// Reads 4 bytes at `offset`.
pub(crate) fn read4(buffer: &Buffer, offset: u64) -> (data: Vec<u8>)
    ensures
        data@ == read_window(buffer@, offset as int),
{
    let mut data: Vec<u8> = Vec::with_capacity(4);
    let n = buffer.read(offset, 4, &mut data);
    proof {
        if n > 0 {
            assert(data@ =~= read_window(buffer@, offset as int));
        } else {
            assert(data@ =~= read_window(buffer@, offset as int));
        }
    }
    data
}

/// Decodes the code point at `from_offset`, with its bytes.
pub fn read_char_raw_forward<C: TextCodec>(buffer: &Buffer, from_offset: u64, codec: &C) -> (r: (
    char,
    u64,
    usize,
    Vec<u8>,
))
    ensures
        (r.0, r.1, r.2) == char_forward(codec, buffer@, from_offset as int),
        from_offset == buffer@.len() ==> r.3@ == Seq::<u8>::empty(),
        from_offset != buffer@.len() ==> r.3@ == read_window(buffer@, from_offset as int).subrange(
            0,
            r.2 as int,
        ),
        r.2 <= 4,
        r.2 <= read_window(buffer@, from_offset as int).len(),
        r.3@.len() == r.2,
        from_offset < buffer@.len() ==> 1 <= r.2 && r.3@ == buffer@.subrange(
            from_offset as int,
            from_offset + r.2,
        ),
{
    if from_offset == buffer.size() as u64 {
        return ('\0', 0, 0, Vec::new());
    }
    let mut data = read4(buffer, from_offset);
    let r = codec.decode(SyncDirection::Forward, data.as_slice(), 0);
    data.truncate(r.2);
    (r.0, r.1, r.2, data)
}

/// Decodes the code point at `from_offset`.
pub fn read_char_forward<C: TextCodec>(buffer: &Buffer, from_offset: u64, codec: &C) -> (r: (
    char,
    u64,
    usize,
))
    ensures
        r == char_forward(codec, buffer@, from_offset as int),
        from_offset < buffer@.len() ==> 1 <= r.2 <= buffer@.len() - from_offset,
{
    if from_offset == buffer.size() as u64 {
        return ('\0', 0, 0);
    }
    let data = read4(buffer, from_offset);
    codec.decode(SyncDirection::Forward, data.as_slice(), 0)
}

/// Decodes the code point that ends at `from_offset`, with its bytes kept
/// at the end of the 4-byte window read before it.
pub fn read_char_raw_backward<C: TextCodec>(buffer: &Buffer, from_offset: u64, codec: &C) -> (r: (
    char,
    u64,
    usize,
    Vec<u8>,
))
    requires
        from_offset <= buffer@.len(),
        from_offset > 0 ==> 4 - char_backward(codec, buffer@, from_offset as int).2 <= read_window(
            buffer@,
            rewind_offset(from_offset as int),
        ).len(),
    ensures
        (r.0, r.1, r.2) == char_backward(codec, buffer@, from_offset as int),
        from_offset > 0 ==> 1 <= r.2 <= from_offset && r.2 <= 4 && r.1 == from_offset - r.2,
        from_offset == 0 ==> r.3@ == Seq::<u8>::empty(),
        from_offset > 0 ==> r.3@ == read_window(buffer@, rewind_offset(from_offset as int)).subrange(
            4 - r.2,
            read_window(buffer@, rewind_offset(from_offset as int)).len() as int,
        ),
{
    if from_offset == 0 {
        return ('\0', 0, 0, Vec::new());
    }
    let rewind_offset = if from_offset >= 4 {
        from_offset - 4
    } else {
        0
    };
    let rewind_size = from_offset - rewind_offset;
    let data = read4(buffer, rewind_offset);
    let ret = codec.decode(SyncDirection::Backward, data.as_slice(), rewind_size);
    // keep trailer
    let start = 4 - ret.2;
    let mut kept: Vec<u8> = Vec::new();
    let mut i: usize = start;
    while i < data.len()
        invariant
            start <= i <= data@.len(),
            kept@ == data@.subrange(start as int, i as int),
        decreases data@.len() - i,
    {
        kept.push(data[i]);
        i = i + 1;
        assert(kept@ =~= data@.subrange(start as int, i as int));
    }
    (ret.0, from_offset - ret.2 as u64, ret.2, kept)
}

/// Decodes the code point that ends at `from_offset`.
pub fn read_char_backward<C: TextCodec>(buffer: &Buffer, from_offset: u64, codec: &C) -> (r: (
    char,
    u64,
    usize,
))
    requires
        from_offset <= buffer@.len(),
    ensures
        r == char_backward(codec, buffer@, from_offset as int),
        from_offset == 0 ==> r == ('\0', 0u64, 0usize),
        from_offset > 0 ==> 1 <= r.2 <= from_offset && r.2 <= 4 && r.1 == from_offset - r.2,
{
    if from_offset == 0 {
        return ('\0', 0, 0);
    }
    let rewind_offset = if from_offset >= 4 {
        from_offset - 4
    } else {
        0
    };
    let rewind_size = from_offset - rewind_offset;
    let data = read4(buffer, rewind_offset);
    let ret = codec.decode(SyncDirection::Backward, data.as_slice(), rewind_size);
    (ret.0, from_offset - ret.2 as u64, ret.2)
}

/// Decodes the code point that ends at `from_offset`, whatever the
/// direction asked.
pub fn read_char<C: TextCodec>(
    _direction: SyncDirection,
    codec: &C,
    buffer: &Buffer,
    from_offset: u64,
) -> (r: (char, u64, usize))
    requires
        from_offset <= buffer@.len(),
    ensures
        r == char_backward(codec, buffer@, from_offset as int),
        from_offset > 0 ==> 1 <= r.2 <= from_offset && r.2 <= 4 && r.1 == from_offset - r.2,
{
    if from_offset == 0 {
        return ('\0', 0, 0);
    }
    let rewind_offset = if from_offset >= 4 {
        from_offset - 4
    } else {
        0
    };
    let rewind_size = from_offset - rewind_offset;
    let data = read4(buffer, rewind_offset);
    let ret = codec.decode(SyncDirection::Backward, data.as_slice(), rewind_size);
    (ret.0, from_offset - ret.2 as u64, ret.2)
}

/// The code points decoded from `p` on, before `max_offset` and before the
/// first `c`, with their offsets and sizes.
pub open spec fn decoded_until<C: TextCodec>(
    codec: &C,
    buf: Seq<u8>,
    p: int,
    max_offset: int,
    c: Option<char>,
) -> Seq<(u64, char, usize)>
    decreases max_offset - p,
{
    let (cp, _, size) = codec.spec_decode(SyncDirection::Forward, read_window(buf, p), 0);
    if p >= max_offset || c == Some(cp) || size == 0 {
        Seq::empty()
    } else if p + size >= max_offset {
        seq![(p as u64, cp, size)]
    } else {
        seq![(p as u64, cp, size)] + decoded_until(codec, buf, p + size, max_offset, c)
    }
}

/// Where the decoding of `decoded_until` stops.
pub open spec fn decode_stop<C: TextCodec>(
    codec: &C,
    buf: Seq<u8>,
    p: int,
    max_offset: int,
    c: Option<char>,
) -> int
    decreases max_offset - p,
{
    let (cp, _, size) = codec.spec_decode(SyncDirection::Forward, read_window(buf, p), 0);
    if p >= max_offset || c == Some(cp) || size == 0 {
        p
    } else if p + size >= max_offset {
        p + size
    } else {
        decode_stop(codec, buf, p + size, max_offset, c)
    }
}

/// Decodes from the mark until `limit` (or the end of the buffer) or until
/// the code point `c`, and moves the mark there; returns the code points
/// decoded when `build_data` is set.
pub fn decode_until_offset_or_char<C: TextCodec>(
    mark: &mut Mark,
    buffer: &Buffer,
    codec: &C,
    limit: u64,
    c: Option<char>,
    build_data: bool,
) -> (r: Option<Vec<(u64, char, usize)>>)
    requires
        old(mark).offset <= limit,
    ensures
        ({
            let max_offset = if buffer@.len() < limit {
                buffer@.len() as int
            } else {
                limit as int
            };
            if old(mark).offset == max_offset {
                r is None && *final(mark) == *old(mark)
            } else {
                &&& final(mark).offset == decode_stop(codec, buffer@, old(mark).offset as int, max_offset, c)
                &&& build_data ==> (r matches Some(v) && v@ == decoded_until(
                    codec,
                    buffer@,
                    old(mark).offset as int,
                    max_offset,
                    c,
                ))
                &&& !build_data ==> r is None
            }
        }),
{
    let size = buffer.size() as u64;
    let max_offset = if size < limit {
        size
    } else {
        limit
    };
    let mut prev_offset = mark.offset;
    if prev_offset == max_offset {
        return None;
    }
    let mut codepoints: Vec<(u64, char, usize)> = Vec::new();
    loop
        invariant
            size == buffer@.len(),
            buffer@.len() <= usize::MAX,
            max_offset <= buffer@.len(),
            max_offset == if buffer@.len() < limit {
                buffer@.len() as int
            } else {
                limit as int
            },
            old(mark).offset <= prev_offset,
            decode_stop(codec, buffer@, old(mark).offset as int, max_offset as int, c) == decode_stop(
                codec,
                buffer@,
                prev_offset as int,
                max_offset as int,
                c,
            ),
            build_data ==> decoded_until(codec, buffer@, old(mark).offset as int, max_offset as int, c)
                == codepoints@ + decoded_until(codec, buffer@, prev_offset as int, max_offset as int, c),
            prev_offset < max_offset ==> prev_offset < buffer@.len(),
            max_offset <= prev_offset ==> prev_offset <= buffer@.len() || prev_offset
                == old(mark).offset,
        ensures
            decode_stop(codec, buffer@, old(mark).offset as int, max_offset as int, c) == prev_offset,
            build_data ==> decoded_until(codec, buffer@, old(mark).offset as int, max_offset as int, c)
                == codepoints@,
        decreases buffer@.len() - prev_offset,
    {
        let data = read4(buffer, prev_offset);
        let (cp, _, size) = codec.decode(SyncDirection::Forward, data.as_slice(), 0);
        if prev_offset >= max_offset {
            proof {
                assert(codepoints@ + Seq::<(u64, char, usize)>::empty() =~= codepoints@);
            }
            break;
        }
        if let Some(c) = c {
            if cp == c {
                proof {
                    assert(codepoints@ + Seq::<(u64, char, usize)>::empty() =~= codepoints@);
                }
                break;
            }
        }
        assert(data@.len() <= buffer@.len() - prev_offset);
        let ghost before = codepoints@;
        if build_data {
            codepoints.push((prev_offset, cp, size));
            proof {
                if prev_offset + size >= max_offset {
                    assert(decoded_until(codec, buffer@, prev_offset + size, max_offset as int, c) =~= Seq::empty());
                }
                assert(codepoints@ + decoded_until(codec, buffer@, prev_offset + size, max_offset as int, c)
                    =~= before + (seq![(prev_offset, cp, size)] + decoded_until(codec, buffer@, prev_offset + size, max_offset as int, c)));
            }
        }
        prev_offset += size as u64;
    }
    mark.offset = prev_offset;
    if build_data {
        Some(codepoints)
    } else {
        None
    }
}

pub fn decode_until_end_of_line_or_offset<C: TextCodec>(
    mark: &mut Mark,
    buffer: &Buffer,
    codec: &C,
    limit: u64,
    build_data: bool,
) -> (r: Option<Vec<(u64, char, usize)>>)
    requires
        old(mark).offset <= limit,
    ensures
        ({
            let max_offset = if buffer@.len() < limit {
                buffer@.len() as int
            } else {
                limit as int
            };
            if old(mark).offset == max_offset {
                r is None && *final(mark) == *old(mark)
            } else {
                &&& final(mark).offset == decode_stop(codec, buffer@, old(mark).offset as int, max_offset, Some('\n'))
                &&& build_data ==> (r matches Some(v) && v@ == decoded_until(
                    codec,
                    buffer@,
                    old(mark).offset as int,
                    max_offset,
                    Some('\n'),
                ))
                &&& !build_data ==> r is None
            }
        }),
{
    decode_until_offset_or_char(mark, buffer, codec, limit, Some('\n'), build_data)
}

/// From `p`, moves forward over the code points that `keep` accepts.
pub open spec fn walk_forward<C: TextCodec>(
    codec: &C,
    buf: Seq<u8>,
    p: int,
    keep: spec_fn(char) -> bool,
) -> int
    decreases buf.len() - p,
{
    if p < 0 || p >= buf.len() {
        p
    } else {
        let (cp, _, size) = char_forward(codec, buf, p);
        if !keep(cp) || size == 0 || p + size > buf.len() {
            p
        } else {
            walk_forward(codec, buf, p + size, keep)
        }
    }
}

/// From `p`, moves backward over the code points that `keep` accepts and
/// over the first one it refuses.
pub open spec fn walk_backward<C: TextCodec>(
    codec: &C,
    buf: Seq<u8>,
    p: int,
    keep: spec_fn(char) -> bool,
) -> int
    decreases p,
{
    if p <= 0 {
        p
    } else {
        let (cp, _, size) = char_backward(codec, buf, p);
        if size == 0 || size > p {
            p
        } else if !keep(cp) {
            p - size
        } else {
            walk_backward(codec, buf, p - size, keep)
        }
    }
}

/// A forward walk from `p` stays within the document, ends on a code
/// point that `keep` refuses (or that cannot be stepped over, or at the
/// end), steps over the code point at `p` only when `keep` accepts it, and
/// goes no further when started where it ended.
pub proof fn lemma_walk_forward<C: TextCodec>(codec: &C, buf: Seq<u8>, p: int, keep: spec_fn(char) -> bool)
    requires
        0 <= p <= buf.len(),
    ensures
        ({
            let q = walk_forward(codec, buf, p, keep);
            let (cq, _, sq) = char_forward(codec, buf, q);
            &&& p <= q <= buf.len()
            &&& q > p ==> keep(char_forward(codec, buf, p).0)
            &&& q < buf.len() ==> !keep(cq) || sq == 0 || q + sq > buf.len()
            &&& walk_forward(codec, buf, q, keep) == q
        }),
    decreases buf.len() - p,
{
    if p < buf.len() {
        let (cp, _, size) = char_forward(codec, buf, p);
        if keep(cp) && size != 0 && p + size <= buf.len() {
            lemma_walk_forward(codec, buf, p + size, keep);
        }
    }
}

/// A backward walk from `p` stays between the start of the document and
/// `p`, and leaves `p` only when a code point ends there.
pub proof fn lemma_walk_backward<C: TextCodec>(codec: &C, buf: Seq<u8>, p: int, keep: spec_fn(char) -> bool)
    requires
        0 <= p,
    ensures
        0 <= walk_backward(codec, buf, p, keep) <= p,
        walk_backward(codec, buf, p, keep) < p ==> 1 <= char_backward(codec, buf, p).2 <= p,
    decreases p,
{
    if p > 0 {
        let (cp, _, size) = char_backward(codec, buf, p);
        if size != 0 && size <= p && keep(cp) {
            lemma_walk_backward(codec, buf, p - size, keep);
        }
    }
}

/// In UTF-8, a read before the end of the document reads at least one
/// byte, and no byte past the end.
pub proof fn lemma_utf8_forward_size(buf: Seq<u8>, x: int)
    requires
        0 <= x < buf.len(),
    ensures
        1 <= char_forward(&Utf8Codec {  }, buf, x).2,
        x + char_forward(&Utf8Codec {  }, buf, x).2 <= buf.len(),
{
    let w = read_window(buf, x);
    assert(w.len() <= buf.len() - x);
    assert(utf8_seq_len(w, 0) <= w.len());
}

/// In UTF-8, a forward walk over code points that are not line feeds steps
/// over no line feed byte.
pub proof fn lemma_walk_forward_no_line_feed(buf: Seq<u8>, p: int, keep: spec_fn(char) -> bool)
    requires
        0 <= p <= buf.len(),
        forall|c: char| #[trigger] keep(c) ==> c != '\n',
    ensures
        p <= walk_forward(&Utf8Codec {  }, buf, p, keep) <= buf.len(),
        forall|k: int| p <= k < walk_forward(&Utf8Codec {  }, buf, p, keep) ==> #[trigger] buf[k] != 0x0a,
    decreases buf.len() - p,
{
    let codec = Utf8Codec {  };
    if p < buf.len() {
        let (cp, _, size) = char_forward(&codec, buf, p);
        if keep(cp) && size != 0 && p + size <= buf.len() {
            lemma_walk_forward_no_line_feed(buf, p + size, keep);
            let w = read_window(buf, p);
            let n = utf8_seq_len(w, 0);
            assert(w[0] == buf[p]);
            assert forall|k: int| p <= k < p + size implies #[trigger] buf[k] != 0x0a by {
                assert(w[k - p] == buf[k]);
                if n == 1 {
                    assert(cp != '\n');
                }
            }
        }
    }
}

pub open spec fn blank_class() -> spec_fn(char) -> bool {
    |c: char| spec_is_blank(c)
}

pub open spec fn non_blank_class() -> spec_fn(char) -> bool {
    |c: char| !spec_is_blank(c)
}

pub open spec fn blank_in_line_class() -> spec_fn(char) -> bool {
    |c: char| spec_is_blank(c) && !spec_is_end_of_line(c)
}

/// The encoding of an end of line.
pub open spec fn eol_pattern<C: TextCodec>(codec: &C) -> Seq<u8> {
    codec.spec_encode('\n' as u32)
}

/// The first `n` bytes of `a`.
fn prefix(a: &[u8; 4], n: usize) -> (v: Vec<u8>)
    requires
        n <= 4,
    ensures
        v@ == a@.subrange(0, n as int),
{
    let mut v: Vec<u8> = Vec::new();
    let mut i: usize = 0;
    while i < n
        invariant
            i <= n,
            n <= 4,
            v@ == a@.subrange(0, i as int),
        decreases n - i,
    {
        v.push(a[i]);
        i = i + 1;
        assert(v@ =~= a@.subrange(0, i as int));
    }
    v
}

/// Writes the encoding of an end of line.
fn eol_bytes<C: TextCodec>(codec: &C) -> (v: Vec<u8>)
    ensures
        v@ == eol_pattern(codec),
        1 <= v@.len() <= 4,
{
    let mut encode: [u8; 4] = [0; 4];
    let sz = codec.encode('\n' as u32, &mut encode);
    prefix(&encode, sz)
}

/// `n` is the start of the line of `o` in `buf`, lines ending with `pat`:
/// just after the last end of line that ends at or before `o`, or the
/// start of the buffer.
pub open spec fn line_start_of(buf: Seq<u8>, pat: Seq<u8>, o: int, n: int) -> bool {
    if o == 0 {
        n == 0
    } else {
        ||| (n == 0 && forall|q: int| q + pat.len() <= o ==> !occurs_at(buf, pat, q))
        ||| (n >= pat.len() && n <= o && occurs_at(buf, pat, n - pat.len()) && forall|q: int|
            n - pat.len() < q && q + pat.len() <= o ==> !occurs_at(buf, pat, q))
    }
}

/// `n` is the end of the line of `o` in `buf`: the first end of line at
/// or after `o`, or the end of the buffer.
pub open spec fn line_end_of(buf: Seq<u8>, pat: Seq<u8>, o: int, n: int) -> bool {
    ||| (n == buf.len() && forall|q: int| o <= q < buf.len() ==> !occurs_at(buf, pat, q))
    ||| (o <= n && occurs_at(buf, pat, n) && forall|q: int| o <= q < n ==> !occurs_at(buf, pat, q))
}

/// The end of the line of `o` (see `line_end_of`).
pub open spec fn line_end(buf: Seq<u8>, pat: Seq<u8>, o: int) -> int {
    choose|n: int| line_end_of(buf, pat, o, n)
}

/// Every offset of the document has the end of its line.
pub proof fn lemma_line_end_exists(buf: Seq<u8>, pat: Seq<u8>, o: int)
    requires
        0 <= o <= buf.len(),
    ensures
        line_end_of(buf, pat, o, line_end(buf, pat, o)),
        o <= line_end(buf, pat, o) <= buf.len(),
    decreases buf.len() - o,
{
    if occurs_at(buf, pat, o) {
        assert(line_end_of(buf, pat, o, o));
    } else if o == buf.len() {
        assert(line_end_of(buf, pat, o, o));
    } else {
        lemma_line_end_exists(buf, pat, o + 1);
        let n = line_end(buf, pat, o + 1);
        assert(line_end_of(buf, pat, o, n));
    }
    lemma_line_end_unique(buf, pat, o, choose|n: int| line_end_of(buf, pat, o, n));
}

/// The end of a line is one offset: the relation `line_end_of` is a
/// function of `o`.
pub proof fn lemma_line_end_unique(buf: Seq<u8>, pat: Seq<u8>, o: int, n: int)
    requires
        line_end_of(buf, pat, o, n),
    ensures
        line_end(buf, pat, o) == n,
{
    let c = line_end(buf, pat, o);
    assert(line_end_of(buf, pat, o, c));
    if c != n {
        if c < n {
            if n == buf.len() && forall|q: int| o <= q < buf.len() ==> !occurs_at(buf, pat, q) {
                assert(!occurs_at(buf, pat, c));
                assert(c == buf.len());
            } else {
                assert(!occurs_at(buf, pat, c));
                assert(c == buf.len());
            }
        } else {
            if c == buf.len() && forall|q: int| o <= q < buf.len() ==> !occurs_at(buf, pat, q) {
                assert(!occurs_at(buf, pat, n));
                assert(n == buf.len());
            } else {
                assert(!occurs_at(buf, pat, n));
                assert(n == buf.len());
            }
        }
    }
}

impl Mark {
    pub fn new(offset: u64) -> (m: Self)
        ensures
            m.offset == offset,
    {
        Mark { offset }
    }

    /// Moves over the code point at the mark, unless at the end.
    pub fn move_forward<C: TextCodec>(&mut self, buffer: &Buffer, codec: &C) -> (r: &mut Mark)
        requires
            old(self).offset <= buffer@.len(),
        ensures
            r.offset == if old(self).offset < buffer@.len() {
                old(self).offset + char_forward(codec, buffer@, old(self).offset as int).2
            } else {
                old(self).offset as int
            },
            r.offset <= buffer@.len(),
            old(self).offset < buffer@.len() ==> r.offset > old(self).offset,
            *final(self) == *final(r),
    {
        if self.offset < buffer.size() as u64 {
            let (_, _, size) = read_char_forward(buffer, self.offset, codec);
            self.offset += size as u64;
        }
        self
    }

    /// Moves before the code point that ends at the mark.
    pub fn move_backward<C: TextCodec>(&mut self, buffer: &Buffer, codec: &C) -> (r: &mut Mark)
        requires
            old(self).offset <= buffer@.len(),
        ensures
            r.offset == char_backward(codec, buffer@, old(self).offset as int).1,
            old(self).offset > 0 ==> r.offset < old(self).offset,
            *final(self) == *final(r),
    {
        let (_c, offset, _size) = read_char_backward(buffer, self.offset, codec);
        self.offset = offset;
        self
    }

    /// Moves to the start of the line: just after the previous end of line,
    /// or to the start of the buffer.
    pub fn move_to_start_of_line<C: TextCodec>(&mut self, buffer: &Buffer, codec: &C) -> (r: &mut Mark)
        ensures
            line_start_of(buffer@, eol_pattern(codec), old(self).offset as int, r.offset as int),
            *final(self) == *final(r),
    {
        if self.offset == 0 {
            return self;
        }
        let encode = eol_bytes(codec);
        let target_offset = if let Some(offset) = buffer.find_reverse(encode.as_slice(), self.offset, None) {
            offset + encode.len() as u64
        } else {
            0
        };
        self.offset = target_offset;
        self
    }

    /// Moves to the next end of line, or to the end of the buffer.
    pub fn move_to_end_of_line<C: TextCodec>(&mut self, buffer: &Buffer, codec: &C) -> (r: &mut Mark)
        ensures
            line_end_of(buffer@, eol_pattern(codec), old(self).offset as int, r.offset as int),
            *final(self) == *final(r),
    {
        let encode = eol_bytes(codec);
        self.offset = if let Some(offset) = buffer.find(encode.as_slice(), self.offset, None) {
            offset
        } else {
            buffer.size() as u64
        };
        self
    }

    pub fn at_beginning_of_buffer(&self, _buffer: &Buffer) -> (b: bool)
        ensures
            b == (self.offset == 0),
    {
        self.offset == 0
    }

    pub fn at_start_of_buffer(&self, _buffer: &Buffer) -> (b: bool)
        ensures
            b == (self.offset == 0),
    {
        self.at_beginning_of_buffer(_buffer)
    }

    pub fn at_end_of_buffer(&self, buffer: &Buffer) -> (b: bool)
        ensures
            b == (self.offset == buffer@.len()),
    {
        self.offset == buffer.size() as u64
    }

    /// Moves over the end of line at the mark, if there is one.
    pub fn skip_end_of_line<C: TextCodec>(&mut self, buffer: &Buffer, codec: &C) -> (r: &mut Mark)
        requires
            old(self).offset <= buffer@.len(),
        ensures
            ({
                let (cp, _, size) = char_forward(codec, buffer@, old(self).offset as int);
                r.offset == if spec_is_end_of_line(cp) {
                    old(self).offset + size
                } else {
                    old(self).offset as int
                }
            }),
            r.offset <= buffer@.len(),
            *final(self) == *final(r),
    {
        let (cp, _, size) = read_char_forward(buffer, self.offset, codec);
        proof {
            buffer.lemma_size_bound();
        }
        if is_end_of_line(cp) {
            self.offset += size as u64;
        }
        self
    }
}

impl Mark {
    /// When the mark is on a blank, moves back over the blanks before it
    /// and over the code point before them.
    pub fn skip_blanks_backward<C: TextCodec>(&mut self, buffer: &Buffer, codec: &C) -> (r: &mut Mark)
        requires
            old(self).offset <= buffer@.len(),
        ensures
            r.offset == if spec_is_blank(char_forward(codec, buffer@, old(self).offset as int).0) {
                walk_backward(codec, buffer@, old(self).offset as int, blank_class())
            } else {
                old(self).offset as int
            },
            r.offset <= old(self).offset,
            *final(self) == *final(r),
    {
        let mut prev_offset = self.offset;
        let (cp, _, _) = read_char_forward(buffer, prev_offset, codec);
        if is_blank(cp) {
            while prev_offset > 0
                invariant_except_break
                    walk_backward(codec, buffer@, old(self).offset as int, blank_class())
                        == walk_backward(codec, buffer@, prev_offset as int, blank_class()),
                invariant
                    prev_offset <= old(self).offset <= buffer@.len(),
                ensures
                    prev_offset <= old(self).offset,
                    walk_backward(codec, buffer@, old(self).offset as int, blank_class())
                        == prev_offset,
                decreases prev_offset,
            {
                let ret = read_char_backward(buffer, prev_offset, codec);
                prev_offset -= ret.2 as u64;
                if !is_blank(ret.0) {
                    break;
                }
            }
            self.offset = prev_offset;
        }
        self
    }

    /// Unless the mark is on an end of line: when it is on a blank, moves
    /// back over the blanks of the line before it and over the code point
    /// before them.
    pub fn skip_blanks_backward_until_end_of_line<C: TextCodec>(
        &mut self,
        buffer: &Buffer,
        codec: &C,
    ) -> (r: &mut Mark)
        requires
            old(self).offset <= buffer@.len(),
        ensures
            ({
                let cp = char_forward(codec, buffer@, old(self).offset as int).0;
                r.offset == if !spec_is_end_of_line(cp) && spec_is_blank(cp) {
                    walk_backward(codec, buffer@, old(self).offset as int, blank_in_line_class())
                } else {
                    old(self).offset as int
                }
            }),
            r.offset <= old(self).offset,
            *final(self) == *final(r),
    {
        let mut prev_offset = self.offset;
        let (cp, _, _) = read_char_forward(buffer, prev_offset, codec);
        if is_end_of_line(cp) {
            return self;
        }
        if is_blank(cp) {
            while prev_offset > 0
                invariant_except_break
                    walk_backward(codec, buffer@, old(self).offset as int, blank_in_line_class())
                        == walk_backward(codec, buffer@, prev_offset as int, blank_in_line_class()),
                invariant
                    prev_offset <= old(self).offset <= buffer@.len(),
                ensures
                    prev_offset <= old(self).offset,
                    walk_backward(codec, buffer@, old(self).offset as int, blank_in_line_class())
                        == prev_offset,
                decreases prev_offset,
            {
                let ret = read_char_backward(buffer, prev_offset, codec);
                prev_offset = ret.1;
                if !is_blank(ret.0) || is_end_of_line(ret.0) {
                    break;
                }
            }
            self.offset = prev_offset;
        }
        self
    }

    /// When the mark is not on a blank, moves back over the non-blanks
    /// before it and over the blank before them.
    pub fn skip_non_blanks_backward<C: TextCodec>(&mut self, buffer: &Buffer, codec: &C) -> (r: &mut Mark)
        requires
            old(self).offset <= buffer@.len(),
        ensures
            r.offset == if !spec_is_blank(char_forward(codec, buffer@, old(self).offset as int).0) {
                walk_backward(codec, buffer@, old(self).offset as int, non_blank_class())
            } else {
                old(self).offset as int
            },
            r.offset <= old(self).offset,
            *final(self) == *final(r),
    {
        let mut prev_offset = self.offset;
        let (cp, _, _) = read_char_forward(buffer, prev_offset, codec);
        if !is_blank(cp) {
            while prev_offset > 0
                invariant_except_break
                    walk_backward(codec, buffer@, old(self).offset as int, non_blank_class())
                        == walk_backward(codec, buffer@, prev_offset as int, non_blank_class()),
                invariant
                    prev_offset <= old(self).offset <= buffer@.len(),
                ensures
                    prev_offset <= old(self).offset,
                    walk_backward(codec, buffer@, old(self).offset as int, non_blank_class())
                        == prev_offset,
                decreases prev_offset,
            {
                let ret = read_char_backward(buffer, prev_offset, codec);
                if is_blank(ret.0) {
                    prev_offset = ret.1;
                    break;
                }
                prev_offset -= ret.2 as u64;
            }
            self.offset = prev_offset;
        }
        self
    }

    /// Moves forward over the blanks of the line at the mark.
    pub fn skip_blanks_forward_until_end_of_line<C: TextCodec>(
        &mut self,
        buffer: &Buffer,
        codec: &C,
    ) -> (r: &mut Mark)
        requires
            old(self).offset <= buffer@.len(),
        ensures
            r.offset == walk_forward(codec, buffer@, old(self).offset as int, blank_in_line_class()),
            old(self).offset <= r.offset <= buffer@.len(),
            *final(self) == *final(r),
    {
        let max_offset = buffer.size() as u64;
        let mut prev_offset = self.offset;
        while prev_offset < max_offset
            invariant
                old(self).offset <= prev_offset <= max_offset,
                max_offset == buffer@.len(),
                walk_forward(codec, buffer@, old(self).offset as int, blank_in_line_class())
                    == walk_forward(codec, buffer@, prev_offset as int, blank_in_line_class()),
            ensures
                old(self).offset <= prev_offset <= max_offset,
                walk_forward(codec, buffer@, old(self).offset as int, blank_in_line_class())
                    == prev_offset,
            decreases max_offset - prev_offset,
        {
            let (cp, _, size) = read_char_forward(buffer, prev_offset, codec);
            if !is_blank(cp) || is_end_of_line(cp) {
                break;
            }
            prev_offset += size as u64;
        }
        self.offset = prev_offset;
        self
    }

    /// When the mark is on a blank, moves forward over the blanks.
    pub fn skip_blanks_forward<C: TextCodec>(&mut self, buffer: &Buffer, codec: &C) -> (r: &mut Mark)
        requires
            old(self).offset <= buffer@.len(),
        ensures
            r.offset == walk_forward(codec, buffer@, old(self).offset as int, blank_class()),
            old(self).offset <= r.offset <= buffer@.len(),
            *final(self) == *final(r),
    {
        let max_offset = buffer.size() as u64;
        let mut prev_offset = self.offset;
        let (cp, _, _) = read_char_forward(buffer, prev_offset, codec);
        if is_blank(cp) {
            while prev_offset < max_offset
                invariant
                    old(self).offset <= prev_offset <= max_offset,
                    max_offset == buffer@.len(),
                    walk_forward(codec, buffer@, old(self).offset as int, blank_class())
                        == walk_forward(codec, buffer@, prev_offset as int, blank_class()),
                ensures
                    old(self).offset <= prev_offset <= max_offset,
                    walk_forward(codec, buffer@, old(self).offset as int, blank_class())
                        == prev_offset,
                decreases max_offset - prev_offset,
            {
                let (cp, _, size) = read_char_forward(buffer, prev_offset, codec);
                if !is_blank(cp) {
                    break;
                }
                prev_offset += size as u64;
            }
            self.offset = prev_offset;
        }
        self
    }

    /// When the mark is not on a blank, moves forward over the non-blanks.
    pub fn skip_non_blanks_forward<C: TextCodec>(&mut self, buffer: &Buffer, codec: &C) -> (r: &mut Mark)
        requires
            old(self).offset <= buffer@.len(),
        ensures
            r.offset == walk_forward(codec, buffer@, old(self).offset as int, non_blank_class()),
            old(self).offset <= r.offset <= buffer@.len(),
            *final(self) == *final(r),
    {
        let max_offset = buffer.size() as u64;
        let mut prev_offset = self.offset;
        let (cp, _, _) = read_char_forward(buffer, prev_offset, codec);
        if !is_blank(cp) {
            while prev_offset < max_offset
                invariant
                    old(self).offset <= prev_offset <= max_offset,
                    max_offset == buffer@.len(),
                    walk_forward(codec, buffer@, old(self).offset as int, non_blank_class())
                        == walk_forward(codec, buffer@, prev_offset as int, non_blank_class()),
                ensures
                    old(self).offset <= prev_offset <= max_offset,
                    walk_forward(codec, buffer@, old(self).offset as int, non_blank_class())
                        == prev_offset,
                decreases max_offset - prev_offset,
            {
                let (cp, _, size) = read_char_forward(buffer, prev_offset, codec);
                if is_blank(cp) {
                    break;
                }
                prev_offset += size as u64;
            }
            self.offset = prev_offset;
        }
        self
    }
}

/// Where `skip_blanks_backward_until_end_of_line` takes a mark at `o`.
pub open spec fn blanks_back_in_line<C: TextCodec>(codec: &C, buf: Seq<u8>, o: int) -> int {
    let cp = char_forward(codec, buf, o).0;
    if !spec_is_end_of_line(cp) && spec_is_blank(cp) {
        walk_backward(codec, buf, o, blank_in_line_class())
    } else {
        o
    }
}

/// Where `skip_non_blanks_backward` takes a mark at `o`.
pub open spec fn non_blanks_back<C: TextCodec>(codec: &C, buf: Seq<u8>, o: int) -> int {
    if !spec_is_blank(char_forward(codec, buf, o).0) {
        walk_backward(codec, buf, o, non_blank_class())
    } else {
        o
    }
}

/// Where `move_forward` takes a mark at `o`.
pub open spec fn step_forward<C: TextCodec>(codec: &C, buf: Seq<u8>, o: int) -> int {
    if o < buf.len() {
        o + char_forward(codec, buf, o).2
    } else {
        o
    }
}

/// Where `move_to_token_start` takes a mark at `o`.
pub open spec fn token_start<C: TextCodec>(codec: &C, buf: Seq<u8>, o: int) -> int {
    if o == 0 {
        0
    } else {
        let o1 = char_backward(codec, buf, o).1 as int;
        if spec_is_end_of_line(char_forward(codec, buf, o1).0) {
            o1
        } else {
            let o3 = non_blanks_back(codec, buf, blanks_back_in_line(codec, buf, o1));
            if o3 == 0 {
                0
            } else {
                step_forward(codec, buf, o3)
            }
        }
    }
}

/// In UTF-8, a mark at the start of the encoding of a scalar value moves
/// forward over the whole of it and reads the value; from the end of it, it
/// moves backward to its start and reads the value: moving forward then
/// backward brings the mark back.
pub proof fn lemma_mark_steps_over_code_point(pre: Seq<u8>, cp: u32, post: Seq<u8>)
    requires
        is_scalar(cp),
        pre.len() + utf8_encode(cp).len() + post.len() <= u64::MAX,
    ensures
        ({
            let e = utf8_encode(cp);
            let b = pre + e + post;
            let p = pre.len() as int;
            &&& char_forward(&Utf8Codec {  }, b, p) == (cp as char, 0u64, e.len() as usize)
            &&& char_backward(&Utf8Codec {  }, b, p + e.len()) == (cp as char, p as u64, e.len() as usize)
        }),
{
    lemma_utf8_round_trip(cp);
    lemma_forward_window(pre, cp, post);
    lemma_backward_window(pre, cp, post);
}

proof fn lemma_forward_window(pre: Seq<u8>, cp: u32, post: Seq<u8>)
    requires
        is_scalar(cp),
        1 <= utf8_encode(cp).len() <= 4,
    ensures
        ({
            let e = utf8_encode(cp);
            let b = pre + e + post;
            char_forward(&Utf8Codec {  }, b, pre.len() as int) == (cp as char, 0u64, e.len() as usize)
        }),
{
    let e = utf8_encode(cp);
    let b = pre + e + post;
    let p = pre.len() as int;
    let n = e.len() as int;
    let hi = if p + 4 <= b.len() {
        p + 4
    } else {
        b.len() as int
    };
    let w = read_window(b, p);
    assert(w == b.subrange(p, hi));
    assert(w.len() >= n);
    let tail = w.subrange(n, w.len() as int);
    assert forall|j: int| 0 <= j < n implies #[trigger] w[j] == e[j] by {
        assert(w[j] == b[p + j]);
    }
    assert(w =~= Seq::<u8>::empty() + e + tail);
    lemma_utf8_round_trip_within(Seq::<u8>::empty(), cp, tail);
}

proof fn lemma_backward_window(pre: Seq<u8>, cp: u32, post: Seq<u8>)
    requires
        is_scalar(cp),
        1 <= utf8_encode(cp).len() <= 4,
        pre.len() + utf8_encode(cp).len() + post.len() <= u64::MAX,
    ensures
        ({
            let e = utf8_encode(cp);
            let b = pre + e + post;
            let p = pre.len() as int;
            char_backward(&Utf8Codec {  }, b, p + e.len()) == (cp as char, p as u64, e.len() as usize)
        }),
{
    let e = utf8_encode(cp);
    let b = pre + e + post;
    let p = pre.len() as int;
    let n = e.len() as int;
    let rw = rewind_offset(p + n);
    assert(0 <= rw <= p);
    let hi = if rw + 4 <= b.len() {
        rw + 4
    } else {
        b.len() as int
    };
    let w2 = read_window(b, rw);
    assert(w2 == b.subrange(rw, hi));
    assert(hi >= p + n);
    let before = b.subrange(rw, p);
    let after = w2.subrange(p + n - rw, w2.len() as int);
    assert forall|j: int| 0 <= j < w2.len() implies #[trigger] w2[j] == (before + e + after)[j] by {
        assert(w2[j] == b[rw + j]);
        if j < p - rw {
        } else if j < p + n - rw {
            assert(b[rw + j] == e[rw + j - p]);
        } else {
        }
    }
    assert(w2 =~= before + e + after);
    lemma_utf8_back_round_trip(before, cp, after);
}

/// In UTF-8, moving to the start of the token from just after a line feed
/// stops on that line feed: the previous token of a line start is the end
/// of the line before it.
pub proof fn lemma_token_start_after_line_feed(buf: Seq<u8>, o: int)
    requires
        0 < o <= buf.len() <= u64::MAX,
        buf[o - 1] == 0x0a,
    ensures
        token_start(&Utf8Codec {  }, buf, o) == o - 1,
{
    let codec = Utf8Codec {  };
    let rw = rewind_offset(o);
    let w = read_window(buf, rw);
    assert(w[o - 1 - rw] == buf[o - 1]);
    assert(utf8_seq_len(w, o - rw - 1) == 1);
    assert(utf8_back_len(w, o - rw) == 1);
    assert(codec.spec_decode(SyncDirection::Backward, w, o - rw).2 == 1);
    assert(char_backward(&codec, buf, o).1 == o - 1);
    let f = read_window(buf, o - 1);
    assert(f[0] == 0x0a);
    assert(utf8_seq_len(f, 0) == 1);
    assert(char_forward(&codec, buf, o - 1).0 == '\n');
}

/// A well-formed UTF-8 sequence of two bytes or more encodes no ASCII
/// code point.
proof fn lemma_utf8_multi_byte_value(s: Seq<u8>, i: int)
    requires
        utf8_seq_len(s, i) >= 2,
    ensures
        utf8_value(s, i, utf8_seq_len(s, i)) >= 0x80,
{
    let n = utf8_seq_len(s, i);
    let b0 = s[i];
    let b1 = s[i + 1];
    if n == 2 {
        assert(((((b0 & 0x1f) as u32) << 6u32) | ((b1 & 0x3f) as u32)) >= 0x80) by (bit_vector)
            requires
                0xc2 <= b0 <= 0xdf,
        ;
    } else if n == 3 {
        let b2 = s[i + 2];
        assert(((((b0 & 0x0f) as u32) << 12u32) | (((b1 & 0x3f) as u32) << 6u32) | ((b2
            & 0x3f) as u32)) >= 0x80) by (bit_vector)
            requires
                0xe0 <= b0 <= 0xef,
                b0 == 0xe0 ==> 0xa0 <= b1,
                b1 <= 0xbf,
        ;
    } else {
        let b2 = s[i + 2];
        let b3 = s[i + 3];
        assert(((((b0 & 0x07) as u32) << 18u32) | (((b1 & 0x3f) as u32) << 12u32) | (((b2
            & 0x3f) as u32) << 6u32) | ((b3 & 0x3f) as u32)) >= 0x80) by (bit_vector)
            requires
                0xf0 <= b0 <= 0xf4,
                b0 == 0xf0 ==> 0x90 <= b1,
                b1 <= 0xbf,
        ;
    }
}

/// A code point at least U+0080 is no blank.
proof fn lemma_high_not_blank(v: u32)
    requires
        v >= 0x80,
    ensures
        !spec_is_blank(crate::codec::scalar_char(v)),
{
    if is_scalar(v) {
        assert((v as char) as u32 == v);
    }
}

/// In UTF-8, a blank read forward is one byte long.
proof fn lemma_utf8_forward_blank(buf: Seq<u8>, x: int)
    requires
        0 <= x < buf.len(),
        spec_is_blank(char_forward(&Utf8Codec {  }, buf, x).0),
    ensures
        char_forward(&Utf8Codec {  }, buf, x).2 == 1,
{
    let w = read_window(buf, x);
    let n = utf8_seq_len(w, 0);
    if n >= 2 {
        lemma_utf8_multi_byte_value(w, 0);
        lemma_high_not_blank(utf8_value(w, 0, n));
    }
}

/// In UTF-8, a backward read after the start reads between one byte and
/// all the bytes before; a blank read backward is one byte long, and reads
/// forward as a blank too.
proof fn lemma_utf8_backward_step(buf: Seq<u8>, q: int)
    requires
        0 < q <= buf.len(),
    ensures
        1 <= char_backward(&Utf8Codec {  }, buf, q).2 <= q,
        spec_is_blank(char_backward(&Utf8Codec {  }, buf, q).0) ==> char_backward(
            &Utf8Codec {  },
            buf,
            q,
        ).2 == 1 && spec_is_blank(char_forward(&Utf8Codec {  }, buf, q - 1).0),
{
    let rw = rewind_offset(q);
    let w = read_window(buf, rw);
    let from = q - rw;
    assert(1 <= from <= w.len());
    let k = utf8_back_len(w, from);
    if k >= 2 {
        lemma_utf8_multi_byte_value(w, from - k);
        lemma_high_not_blank(utf8_value(w, from - k, k));
    }
    if k == 1 {
        let f = read_window(buf, q - 1);
        assert(w[from - 1] == buf[q - 1]);
        assert(f[0] == buf[q - 1]);
        assert(utf8_seq_len(f, 0) == 1);
    }
}

/// In UTF-8, a blank read forward at `x` is read backward from just after
/// it.
proof fn lemma_utf8_blank_read_back(buf: Seq<u8>, x: int)
    requires
        0 <= x < buf.len(),
        spec_is_blank(char_forward(&Utf8Codec {  }, buf, x).0),
    ensures
        char_backward(&Utf8Codec {  }, buf, x + 1).0 == char_forward(&Utf8Codec {  }, buf, x).0,
{
    lemma_utf8_forward_blank(buf, x);
    let f = read_window(buf, x);
    assert(f[0] == buf[x]);
    assert(utf8_seq_len(f, 0) == 1);
    let rw = rewind_offset(x + 1);
    let w = read_window(buf, rw);
    assert(w[x - rw] == buf[x]);
    assert(utf8_seq_len(w, x - rw) == 1);
    assert(utf8_back_len(w, x + 1 - rw) == 1);
}

/// In UTF-8, a backward walk from `p` ends at the start of the document,
/// or just before a code point that `keep` refuses, which ends at the
/// returned `q`.
proof fn lemma_utf8_walk_backward_stop(buf: Seq<u8>, p: int, keep: spec_fn(char) -> bool) -> (q: int)
    requires
        0 <= p <= buf.len(),
    ensures
        walk_backward(&Utf8Codec {  }, buf, p, keep) == 0 || ({
            let r = walk_backward(&Utf8Codec {  }, buf, p, keep);
            let (c, _, size) = char_backward(&Utf8Codec {  }, buf, q);
            &&& r < q <= p
            &&& !keep(c)
            &&& r == q - size
        }),
    decreases p,
{
    if p == 0 {
        0
    } else {
        lemma_utf8_backward_step(buf, p);
        let (c, _, size) = char_backward(&Utf8Codec {  }, buf, p);
        if !keep(c) {
            p
        } else {
            lemma_utf8_walk_backward_stop(buf, p - size, keep)
        }
    }
}

/// In UTF-8, moving to the start of the token moves a mark after the start
/// of the document back, to the start of the document, onto a line feed,
/// or just after a blank.
pub proof fn lemma_token_start_moves_back(buf: Seq<u8>, o: int)
    requires
        0 < o <= buf.len() <= u64::MAX,
    ensures
        0 <= token_start(&Utf8Codec {  }, buf, o) < o,
        ({
            let t = token_start(&Utf8Codec {  }, buf, o);
            t == 0 || spec_is_end_of_line(char_forward(&Utf8Codec {  }, buf, t).0) || spec_is_blank(
                char_backward(&Utf8Codec {  }, buf, t).0,
            )
        }),
{
    let codec = Utf8Codec {  };
    lemma_utf8_backward_step(buf, o);
    let o1 = char_backward(&codec, buf, o).1 as int;
    assert(o1 == o - char_backward(&codec, buf, o).2);
    if !spec_is_end_of_line(char_forward(&codec, buf, o1).0) {
        let x = blanks_back_in_line(&codec, buf, o1);
        let cp1 = char_forward(&codec, buf, o1).0;
        let bil = blank_in_line_class();
        let nb = non_blank_class();
        lemma_walk_backward(&codec, buf, o1, bil);
        let qx = lemma_utf8_walk_backward_stop(buf, o1, bil);
        assert(0 <= x <= o1);
        let o3 = non_blanks_back(&codec, buf, x);
        if spec_is_blank(char_forward(&codec, buf, x).0) {
            assert(o3 == x);
            if x == o1 {
                assert(bil(cp1));
                assert(x == 0);
            } else if x > 0 {
                lemma_utf8_forward_blank(buf, x);
                lemma_utf8_blank_read_back(buf, x);
            }
        } else {
            lemma_walk_backward(&codec, buf, x, nb);
            let q = lemma_utf8_walk_backward_stop(buf, x, nb);
            if o3 > 0 {
                lemma_utf8_backward_step(buf, q);
                lemma_utf8_forward_blank(buf, q - 1);
            }
        }
    }
}

/// A blank byte: a space, a tab or a line feed.
pub open spec fn is_blank_byte(b: u8) -> bool {
    b == 0x20 || b == 0x09 || b == 0x0a
}

/// An ASCII byte read as a code point is a blank exactly when it is a
/// blank byte, a line feed exactly when it is one.
proof fn lemma_ascii_blank(b: u8)
    requires
        b < 0x80,
    ensures
        spec_is_blank(crate::codec::scalar_char(b as u32)) <==> is_blank_byte(b),
        spec_is_end_of_line(crate::codec::scalar_char(b as u32)) <==> b == 0x0a,
        crate::codec::scalar_char(b as u32) == ' ' <==> b == 0x20,
        crate::codec::scalar_char(b as u32) == '\t' <==> b == 0x09,
{
    let v = b as u32;
    assert(is_scalar(v));
    assert((v as char) as u32 == v);
}

/// In UTF-8, the code point read forward at `x` is a blank exactly when the
/// byte at `x` is a blank byte.
proof fn lemma_utf8_forward_blank_byte(buf: Seq<u8>, x: int)
    requires
        0 <= x < buf.len(),
    ensures
        spec_is_blank(char_forward(&Utf8Codec {  }, buf, x).0) <==> is_blank_byte(buf[x]),
{
    let f = read_window(buf, x);
    assert(f[0] == buf[x]);
    let n = utf8_seq_len(f, 0);
    if buf[x] < 0x80 {
        assert(n == 1);
        lemma_ascii_blank(buf[x]);
    } else if n >= 2 {
        lemma_utf8_multi_byte_value(f, 0);
        lemma_high_not_blank(utf8_value(f, 0, n));
    }
}

/// In UTF-8, a blank read backward from `q` is the one byte before `q`, a
/// blank byte of the same kind; the bytes of a code point that is not a
/// blank are no blank bytes.
proof fn lemma_utf8_backward_bytes(buf: Seq<u8>, q: int)
    requires
        0 < q <= buf.len(),
    ensures
        ({
            let (c, _, sz) = char_backward(&Utf8Codec {  }, buf, q);
            &&& 1 <= sz <= q
            &&& spec_is_blank(c) ==> {
                &&& sz == 1
                &&& (c == ' ' <==> buf[q - 1] == 0x20)
                &&& (c == '\t' <==> buf[q - 1] == 0x09)
                &&& (c == '\n' <==> buf[q - 1] == 0x0a)
                &&& is_blank_byte(buf[q - 1])
            }
            &&& !spec_is_blank(c) ==> forall|j: int| q - sz <= j < q ==> !is_blank_byte(#[trigger] buf[j])
        }),
{
    lemma_utf8_backward_step(buf, q);
    let rw = rewind_offset(q);
    let w = read_window(buf, rw);
    let from = q - rw;
    let k = utf8_back_len(w, from);
    assert forall|j: int| rw <= j < q implies #[trigger] buf[j] == w[j - rw] by {}
    if k == 1 {
        assert(w[from - 1] < 0x80);
        lemma_ascii_blank(w[from - 1]);
    } else if k >= 2 {
        let i = from - k;
        assert(utf8_seq_len(w, i) == k);
        assert forall|j: int| q - k <= j < q implies !is_blank_byte(#[trigger] buf[j]) by {
            assert(buf[j] == w[j - rw]);
            assert(w[j - rw] >= 0x80);
        }
    } else {
        assert(utf8_seq_len(w, from - 1) != 1);
        assert(w[from - 1] >= 0x80);
        assert(buf[q - 1] == w[from - 1]);
    }
}

/// In UTF-8, a backward walk over the blanks of a line steps over spaces
/// and tabs only, from `p` back to `q`; it ends at the start of the
/// document, or just before the code point it refuses, which ends at `q`.
proof fn lemma_walk_back_line_blanks(buf: Seq<u8>, p: int) -> (q: int)
    requires
        0 <= p <= buf.len(),
    ensures
        0 <= q <= p,
        forall|j: int| q <= j < p ==> #[trigger] buf[j] == 0x20 || buf[j] == 0x09,
        ({
            let r = walk_backward(&Utf8Codec {  }, buf, p, blank_in_line_class());
            let (c, _, sz) = char_backward(&Utf8Codec {  }, buf, q);
            ||| r == 0 && q == 0
            ||| r < q && !blank_in_line_class()(c) && r == q - sz
        }),
    decreases p,
{
    if p == 0 {
        0
    } else {
        lemma_utf8_backward_bytes(buf, p);
        let (c, _, sz) = char_backward(&Utf8Codec {  }, buf, p);
        if !blank_in_line_class()(c) {
            p
        } else {
            let q = lemma_walk_back_line_blanks(buf, p - sz);
            assert(buf[p - 1] == 0x20 || buf[p - 1] == 0x09);
            q
        }
    }
}

/// In UTF-8, a backward walk over code points that are not blanks steps
/// over no blank byte, from `p` back to `q`; it ends at the start of the
/// document, or just before the blank it refuses, which ends at `q`.
proof fn lemma_walk_back_non_blanks(buf: Seq<u8>, p: int) -> (q: int)
    requires
        0 <= p <= buf.len(),
    ensures
        0 <= q <= p,
        forall|j: int| q <= j < p ==> !is_blank_byte(#[trigger] buf[j]),
        ({
            let r = walk_backward(&Utf8Codec {  }, buf, p, non_blank_class());
            let (c, _, sz) = char_backward(&Utf8Codec {  }, buf, q);
            ||| r == 0 && q == 0
            ||| r < q && spec_is_blank(c) && r == q - sz
        }),
    decreases p,
{
    if p == 0 {
        0
    } else {
        lemma_utf8_backward_bytes(buf, p);
        let (c, _, sz) = char_backward(&Utf8Codec {  }, buf, p);
        if spec_is_blank(c) {
            p
        } else {
            let q = lemma_walk_back_non_blanks(buf, p - sz);
            q
        }
    }
}

/// In UTF-8, when moving to the start of the token does not end at the
/// start of the document, the bytes from where it ends up to the code point
/// before the mark are those of a token, with no blank, then spaces and
/// tabs: no line feed, and no byte but spaces and tabs after a blank.
pub proof fn lemma_token_start_spans_token(buf: Seq<u8>, o: int)
    requires
        0 < o <= buf.len() <= u64::MAX,
    ensures
        ({
            let t = token_start(&Utf8Codec {  }, buf, o);
            let o1 = char_backward(&Utf8Codec {  }, buf, o).1 as int;
            t > 0 ==> {
                &&& forall|k: int| t <= k < o1 ==> #[trigger] buf[k] != 0x0a
                &&& forall|k: int, k2: int|
                    t <= k < k2 < o1 && is_blank_byte(#[trigger] buf[k]) ==> #[trigger] buf[k2] == 0x20
                        || buf[k2] == 0x09
            }
        }),
{
    let codec = Utf8Codec {  };
    lemma_utf8_backward_step(buf, o);
    let o1 = char_backward(&codec, buf, o).1 as int;
    let t = token_start(&codec, buf, o);
    if !spec_is_end_of_line(char_forward(&codec, buf, o1).0) && t > 0 {
        let y = lemma_token_start_layout(buf, o);
        assert forall|k: int| t <= k < o1 implies #[trigger] buf[k] != 0x0a by {
            if k < y {
                assert(!is_blank_byte(buf[k]));
            }
        }
        assert forall|k: int, k2: int|
            t <= k < k2 < o1 && is_blank_byte(#[trigger] buf[k]) implies #[trigger] buf[k2] == 0x20
                || buf[k2] == 0x09 by {
            if k < y {
                assert(!is_blank_byte(buf[k]));
            }
        }
    } else {
        lemma_token_start_moves_back(buf, o);
    }
}

/// Where the token before `o` ends: from the token start up to it, no
/// blank byte; from it up to the code point before `o`, spaces and tabs.
#[verifier::rlimit(50)]
proof fn lemma_token_start_layout(buf: Seq<u8>, o: int) -> (y: int)
    requires
        0 < o <= buf.len() <= u64::MAX,
        !spec_is_end_of_line(
            char_forward(&Utf8Codec {  }, buf, char_backward(&Utf8Codec {  }, buf, o).1 as int).0,
        ),
        token_start(&Utf8Codec {  }, buf, o) > 0,
    ensures
        ({
            let t = token_start(&Utf8Codec {  }, buf, o);
            let o1 = char_backward(&Utf8Codec {  }, buf, o).1 as int;
            &&& t <= y <= o1
            &&& forall|j: int| t <= j < y ==> !is_blank_byte(#[trigger] buf[j])
            &&& forall|j: int| y <= j < o1 ==> #[trigger] buf[j] == 0x20 || buf[j] == 0x09
        }),
{
    let codec = Utf8Codec {  };
    lemma_utf8_backward_step(buf, o);
    let o1 = char_backward(&codec, buf, o).1 as int;
    assert(o1 == o - char_backward(&codec, buf, o).2);
    let t = token_start(&codec, buf, o);
    let bil = blank_in_line_class();
    let cp1 = char_forward(&codec, buf, o1).0;
    let x = blanks_back_in_line(&codec, buf, o1);
    let qa = if bil(cp1) {
        lemma_walk_back_line_blanks(buf, o1)
    } else {
        o1
    };
    if x < qa {
        lemma_utf8_backward_bytes(buf, qa);
    }
    lemma_utf8_forward_blank_byte(buf, x);
    let o3 = non_blanks_back(&codec, buf, x);
    if spec_is_blank(char_forward(&codec, buf, x).0) {
        assert(o3 == x);
        assert(x < qa);
        lemma_utf8_forward_blank(buf, x);
        assert(t == qa);
    } else {
        let qb = lemma_walk_back_non_blanks(buf, x);
        lemma_utf8_backward_bytes(buf, qb);
        lemma_utf8_forward_blank_byte(buf, qb - 1);
        lemma_utf8_forward_blank(buf, qb - 1);
        assert(t == qb);
    }
    qa
}

/// In UTF-8, a blank read forward at `x` is the one byte at `x`, a blank
/// byte of the same kind; the bytes of a code point that is not a blank are
/// no blank bytes.
proof fn lemma_utf8_forward_bytes(buf: Seq<u8>, x: int)
    requires
        0 <= x < buf.len(),
    ensures
        ({
            let (c, _, sz) = char_forward(&Utf8Codec {  }, buf, x);
            &&& spec_is_blank(c) ==> {
                &&& sz == 1
                &&& (c == ' ' <==> buf[x] == 0x20)
                &&& (c == '\t' <==> buf[x] == 0x09)
                &&& (c == '\n' <==> buf[x] == 0x0a)
            }
            &&& !spec_is_blank(c) ==> forall|j: int| x <= j < x + sz ==> !is_blank_byte(#[trigger] buf[j])
        }),
{
    lemma_utf8_forward_blank_byte(buf, x);
    lemma_utf8_forward_size(buf, x);
    let f = read_window(buf, x);
    assert(f[0] == buf[x]);
    let n = utf8_seq_len(f, 0);
    if buf[x] < 0x80 {
        assert(n == 1);
        lemma_ascii_blank(buf[x]);
    } else if n >= 2 {
        assert forall|j: int| x <= j < x + n implies !is_blank_byte(#[trigger] buf[j]) by {
            assert(buf[j] == f[j - x]);
        }
    }
}

/// In UTF-8, a forward walk over the blanks of a line steps over spaces
/// and tabs only.
pub proof fn lemma_walk_forward_line_blanks(buf: Seq<u8>, p: int)
    requires
        0 <= p <= buf.len(),
    ensures
        forall|j: int|
            p <= j < walk_forward(&Utf8Codec {  }, buf, p, blank_in_line_class()) ==> #[trigger] buf[j]
                == 0x20 || buf[j] == 0x09,
    decreases buf.len() - p,
{
    if p < buf.len() {
        lemma_utf8_forward_bytes(buf, p);
        let (c, _, sz) = char_forward(&Utf8Codec {  }, buf, p);
        if blank_in_line_class()(c) && sz != 0 && p + sz <= buf.len() {
            lemma_walk_forward_line_blanks(buf, p + sz);
        }
    }
}

/// In UTF-8, a forward walk over code points that are not blanks steps
/// over no blank byte.
pub proof fn lemma_walk_forward_non_blanks(buf: Seq<u8>, p: int)
    requires
        0 <= p <= buf.len(),
    ensures
        forall|j: int|
            p <= j < walk_forward(&Utf8Codec {  }, buf, p, non_blank_class()) ==> !is_blank_byte(
                #[trigger] buf[j],
            ),
    decreases buf.len() - p,
{
    if p < buf.len() {
        lemma_utf8_forward_bytes(buf, p);
        let (c, _, sz) = char_forward(&Utf8Codec {  }, buf, p);
        if non_blank_class()(c) && sz != 0 && p + sz <= buf.len() {
            lemma_walk_forward_non_blanks(buf, p + sz);
        }
    }
}

/// Where `move_to_token_end` takes a mark at `o`.
pub open spec fn token_end<C: TextCodec>(codec: &C, buf: Seq<u8>, o: int) -> int {
    if o == buf.len() {
        o
    } else {
        let (cp, _, size) = char_forward(codec, buf, o);
        let o1 = if spec_is_end_of_line(cp) {
            o + size
        } else {
            o
        };
        let o2 = walk_forward(codec, buf, o1, blank_in_line_class());
        walk_forward(codec, buf, o2, non_blank_class())
    }
}

/// In UTF-8, moving to the end of the token moves a mark before the end of
/// the document forward, over the line feed at the mark if there is one
/// and over no other, to the end of the document or onto a blank; after
/// the mark, it steps over spaces and tabs, then over bytes that are no
/// blanks.
pub proof fn lemma_token_end_moves_forward(buf: Seq<u8>, o: int)
    requires
        0 <= o < buf.len(),
    ensures
        o < token_end(&Utf8Codec {  }, buf, o) <= buf.len(),
        forall|k: int| o < k < token_end(&Utf8Codec {  }, buf, o) ==> #[trigger] buf[k] != 0x0a,
        token_end(&Utf8Codec {  }, buf, o) < buf.len() ==> spec_is_blank(
            char_forward(&Utf8Codec {  }, buf, token_end(&Utf8Codec {  }, buf, o)).0,
        ),
        forall|k: int, k2: int|
            o < k < k2 < token_end(&Utf8Codec {  }, buf, o) && !is_blank_byte(#[trigger] buf[k])
                ==> !is_blank_byte(#[trigger] buf[k2]),
{
    let codec = Utf8Codec {  };
    let (cp, _, size) = char_forward(&codec, buf, o);
    lemma_utf8_forward_size(buf, o);
    let o1 = if spec_is_end_of_line(cp) {
        o + size
    } else {
        o
    };
    if spec_is_end_of_line(cp) {
        lemma_utf8_forward_blank(buf, o);
    }
    let b = blank_in_line_class();
    let nb = non_blank_class();
    assert forall|c: char| #[trigger] b(c) implies c != '\n' by {}
    assert forall|c: char| #[trigger] nb(c) implies c != '\n' by {}
    lemma_walk_forward_no_line_feed(buf, o1, b);
    let o2 = walk_forward(&codec, buf, o1, b);
    lemma_walk_forward_no_line_feed(buf, o2, nb);
    lemma_walk_forward(&codec, buf, o2, nb);
    let e = walk_forward(&codec, buf, o2, nb);
    if e < buf.len() {
        lemma_utf8_forward_size(buf, e);
    }
    if o1 == o {
        if b(cp) {
            lemma_walk_forward_no_line_feed(buf, o + size, b);
        } else {
            assert(nb(cp));
            assert(o2 == o);
            lemma_walk_forward_no_line_feed(buf, o + size, nb);
        }
    }
    lemma_walk_forward_line_blanks(buf, o1);
    lemma_walk_forward_non_blanks(buf, o2);
    assert forall|k: int, k2: int|
        o < k < k2 < e && !is_blank_byte(#[trigger] buf[k]) implies !is_blank_byte(#[trigger] buf[k2]) by {
        if k < o2 {
            assert(k < o1 || buf[k] == 0x20 || buf[k] == 0x09);
        }
    }
}

impl Mark {
    /// Moves to the start of the token before the mark.
    pub fn move_to_token_start<C: TextCodec>(&mut self, buffer: &Buffer, codec: &C) -> (r: &mut Mark)
        requires
            old(self).offset <= buffer@.len(),
        ensures
            r.offset == token_start(codec, buffer@, old(self).offset as int),
            *final(self) == *final(r),
    {
        if self.at_start_of_buffer(buffer) {
            return self;
        }
        self.move_backward(buffer, codec);
        let ret = read_char_forward(buffer, self.offset, codec);
        if is_end_of_line(ret.0) {
            return self;
        }
        self.skip_blanks_backward_until_end_of_line(buffer, codec);
        self.skip_non_blanks_backward(buffer, codec);
        if self.at_start_of_buffer(buffer) {
            return self;
        }
        self.move_forward(buffer, codec);
        self
    }

    /// Moves to the end of the token at or after the mark.
    pub fn move_to_token_end<C: TextCodec>(&mut self, buffer: &Buffer, codec: &C) -> (r: &mut Mark)
        requires
            old(self).offset <= buffer@.len(),
        ensures
            r.offset == token_end(codec, buffer@, old(self).offset as int),
            *final(self) == *final(r),
    {
        if self.at_end_of_buffer(buffer) {
            return self;
        }
        self.skip_end_of_line(buffer, codec);
        self.skip_blanks_forward_until_end_of_line(buffer, codec);
        self.skip_non_blanks_forward(buffer, codec);
        self
    }
}

} // verus!
