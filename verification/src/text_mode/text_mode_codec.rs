//! Turns the bytes read from the document into decoded code points.

use vstd::prelude::*;

use crate::codec::{
    is_cont, is_scalar, lemma_utf8_round_trip, seq_len_at, utf8_encode, utf8_seq_len, utf8_value, value_at, Utf8Codec,
};
use crate::text_mode::editing::encoded;
use crate::codepointinfo::TextStyle;
use crate::view::layout::{ios, FilterData, FilterDataModel, FilterIo, FilterIoModel, Unicode};

verus! {

/// Each byte taken as the code point of the same value.
pub open spec fn bytes_as_unicode(v: Seq<u8>) -> Seq<Unicode> {
    v.map_values(|b: u8| Unicode { size: 1, cp: b as u32 })
}

/// What the byte-per-code-point filter makes of one element.
pub open spec fn byte_codec_step(io: FilterIoModel) -> Seq<FilterIoModel> {
    match io.data {
        FilterDataModel::ByteArray(v) => seq![
            FilterIoModel {
                metadata: false,
                style: TextStyle::spec_new(),
                offset: io.offset,
                size: 0,
                data: FilterDataModel::UnicodeArray(bytes_as_unicode(v)),
            },
        ],
        _ => seq![io],
    }
}

/// The filter accepts byte arrays and end markers, all at a known offset.
pub open spec fn byte_codec_accepts(io: FilterIoModel) -> bool {
    &&& io.offset is Some
    &&& io.data is ByteArray || io.data is EndOfStream || io.data is CustomLimitReached
}

/// The elements `s` through the filter, element by element.
pub open spec fn byte_codec_run(s: Seq<FilterIoModel>) -> Seq<FilterIoModel>
    decreases s.len(),
{
    if s.len() == 0 {
        seq![]
    } else {
        byte_codec_run(s.drop_last()) + byte_codec_step(s.last())
    }
}

/// Decodes each byte as the code point of the same value.
pub struct TextCodecFilter {}

impl TextCodecFilter {
    pub fn new() -> (f: TextCodecFilter) {
        TextCodecFilter {  }
    }

    /// Appends to `filter_out`, for each byte array of `filter_in`, one
    /// array of code points at the same offset; end markers go through.
    pub fn run(&mut self, filter_in: &[FilterIo], filter_out: &mut Vec<FilterIo>)
        requires
            forall|k: int| 0 <= k < filter_in@.len() ==> byte_codec_accepts(#[trigger] filter_in@[k]@),
        ensures
            ios(final(filter_out)@) == ios(old(filter_out)@) + byte_codec_run(ios(filter_in@)),
    {
        let ghost input = ios(filter_in@);
        let ghost out0 = ios(filter_out@);
        let n = filter_in.len();
        let mut i: usize = 0;
        while i < n
            invariant
                n == filter_in@.len(),
                input == ios(filter_in@),
                0 <= i <= n,
                forall|k: int| 0 <= k < filter_in@.len() ==> byte_codec_accepts(#[trigger] filter_in@[k]@),
                ios(filter_out@) == out0 + byte_codec_run(input.take(i as int)),
            decreases n - i,
        {
            proof {
                assert(input.take(i + 1).drop_last() =~= input.take(i as int));
                assert(input.take(i + 1).last() == filter_in@[i as int]@);
                assert(byte_codec_accepts(filter_in@[i as int]@));
            }
            let d = &filter_in[i];
            let ghost prev = filter_out@;
            match &d.data {
                FilterData::ByteArray { vec } => {
                    let base_offset = match d.offset {
                        Some(o) => o,
                        None => 0,
                    };
                    let mut decoded: Vec<Unicode> = Vec::new();
                    let m = vec.len();
                    let mut j: usize = 0;
                    while j < m
                        invariant
                            m == vec@.len(),
                            0 <= j <= m,
                            decoded@ == bytes_as_unicode(vec@.take(j as int)),
                        decreases m - j,
                    {
                        decoded.push(Unicode { size: 1, cp: vec[j] as u32 });
                        assert(decoded@ =~= bytes_as_unicode(vec@.take(j + 1)));
                        j = j + 1;
                    }
                    assert(vec@.take(m as int) =~= vec@);
                    let new_io = FilterIo {
                        metadata: false,
                        style: TextStyle::new(),
                        offset: Some(base_offset),
                        size: 0,
                        data: FilterData::UnicodeArray { vec: decoded },
                    };
                    let ghost nm = new_io@;
                    filter_out.push(new_io);
                    assert(ios(filter_out@) =~= ios(prev).push(nm));
                    assert(byte_codec_step(d@) =~= seq![nm]);
                },
                _ => {
                    let ghost nm = d@;
                    filter_out.push(d.duplicate());
                    assert(ios(filter_out@) =~= ios(prev).push(nm));
                },
            }
            i = i + 1;
        }
        assert(input.take(n as int) =~= input);
    }
}

/// The number of bytes of the well-formed sequences that start with `b0`
/// (0 when none does).
pub open spec fn utf8_expected_len(b0: u8) -> int {
    if 0xc2 <= b0 <= 0xdf {
        2
    } else if 0xe0 <= b0 <= 0xef {
        3
    } else if 0xf0 <= b0 <= 0xf4 {
        4
    } else {
        0
    }
}

/// `b1` may follow the lead byte `b0` in a well-formed sequence.
pub open spec fn utf8_second_ok(b0: u8, b1: u8) -> bool {
    let lo: u8 = if b0 == 0xe0 {
        0xa0
    } else if b0 == 0xf0 {
        0x90
    } else {
        0x80
    };
    let hi: u8 = if b0 == 0xed {
        0x9f
    } else if b0 == 0xf4 {
        0x8f
    } else {
        0xbf
    };
    lo <= b1 <= hi
}

/// `t` starts a well-formed sequence that is not complete yet.
pub open spec fn utf8_incomplete(t: Seq<u8>) -> bool {
    &&& t.len() >= 1
    &&& t.len() < utf8_expected_len(t[0])
    &&& (t.len() >= 2 ==> utf8_second_ok(t[0], t[1]))
    &&& (t.len() >= 3 ==> is_cont(t[2]))
}

/// The replacement character, for a byte that starts no well-formed
/// sequence.
pub open spec fn replacement() -> Unicode {
    Unicode { size: 1, cp: 0xfffd }
}

/// Decoding the byte `b` after the pending bytes `p` (the start of a
/// sequence, or none): the code points it completes and the bytes left
/// pending.
///
/// A sequence that becomes complete gives its code point; one that is
/// still incomplete stays pending; otherwise each pending byte gives the
/// replacement character and `b` is decoded afresh.
pub open spec fn utf8_feed(p: Seq<u8>, b: u8) -> (Seq<Unicode>, Seq<u8>)
    decreases p.len(),
{
    let t = p.push(b);
    if utf8_seq_len(t, 0) == t.len() {
        (seq![Unicode { size: t.len() as u32, cp: utf8_value(t, 0, t.len() as int) }], seq![])
    } else if utf8_incomplete(t) {
        (seq![], t)
    } else if p.len() == 0 {
        (seq![replacement()], seq![])
    } else {
        let r = utf8_feed(seq![], b);
        (Seq::new(p.len(), |_i: int| replacement()) + r.0, r.1)
    }
}

/// Decoding the bytes `bytes` after the pending bytes `p`, byte by byte.
pub open spec fn utf8_bytes(p: Seq<u8>, bytes: Seq<u8>) -> (Seq<Unicode>, Seq<u8>)
    decreases bytes.len(),
{
    if bytes.len() == 0 {
        (seq![], p)
    } else {
        let r = utf8_bytes(p, bytes.drop_last());
        let f = utf8_feed(r.1, bytes.last());
        (r.0 + f.0, f.1)
    }
}

/// Decoding bytes that follow other bytes: the decoder goes on from what
/// the first ones left pending.
pub proof fn lemma_utf8_bytes_append(p: Seq<u8>, a: Seq<u8>, b: Seq<u8>)
    ensures
        ({
            let ra = utf8_bytes(p, a);
            let rb = utf8_bytes(ra.1, b);
            utf8_bytes(p, a + b) == (ra.0 + rb.0, rb.1)
        }),
    decreases b.len(),
{
    if b.len() == 0 {
        assert(a + b =~= a);
        assert(utf8_bytes(p, a).0 + Seq::<Unicode>::empty() =~= utf8_bytes(p, a).0);
    } else {
        lemma_utf8_bytes_append(p, a, b.drop_last());
        assert((a + b).drop_last() =~= a + b.drop_last());
        assert((a + b).last() == b.last());
        let ra = utf8_bytes(p, a);
        let rb0 = utf8_bytes(ra.1, b.drop_last());
        let f = utf8_feed(rb0.1, b.last());
        assert(ra.0 + rb0.0 + f.0 =~= ra.0 + (rb0.0 + f.0));
    }
}

/// The bytes of one code point, fed from nothing pending: the first ones
/// wait, the last gives the code point with its byte count.
proof fn lemma_utf8_one(cp: u32, k: int)
    requires
        is_scalar(cp),
        1 <= k <= utf8_encode(cp).len(),
    ensures
        ({
            let s = utf8_encode(cp);
            utf8_bytes(seq![], s.take(k)) == if k == s.len() {
                (seq![Unicode { size: s.len() as u32, cp }], Seq::<u8>::empty())
            } else {
                (Seq::<Unicode>::empty(), s.take(k))
            }
        }),
    decreases k,
{
    let s = utf8_encode(cp);
    lemma_utf8_round_trip(cp);
    let n = s.len() as int;
    let t = s.take(k);
    assert(t.drop_last() =~= s.take(k - 1));
    assert(t.last() == s[k - 1]);
    let prev = if k == 1 {
        (Seq::<Unicode>::empty(), Seq::<u8>::empty())
    } else {
        (Seq::<Unicode>::empty(), s.take(k - 1))
    };
    if k == 1 {
        assert(s.take(0) =~= Seq::<u8>::empty());
        assert(utf8_bytes(seq![], s.take(0)) == prev);
    } else {
        lemma_utf8_one(cp, k - 1);
    }
    assert(prev.1.push(s[k - 1]) =~= t);
    if k == n {
        assert(t =~= s);
        assert(utf8_seq_len(t, 0) == t.len());
    } else {
        assert(t[0] == s[0]);
        if k >= 2 {
            assert(t[1] == s[1]);
        }
        if k >= 3 {
            assert(t[2] == s[2]);
        }
        assert(utf8_seq_len(t, 0) == 0);
        assert(utf8_incomplete(t));
    }
    assert(Seq::<Unicode>::empty() + utf8_feed(prev.1, s[k - 1]).0 =~= utf8_feed(prev.1, s[k - 1]).0);
}

/// Decoding the UTF-8 encoding of a string gives back its code points,
/// each with the number of bytes it takes, and leaves nothing pending
/// (every `char` is a Unicode scalar value).
pub proof fn lemma_utf8_decodes_encoding(s: Seq<char>)
    requires
        forall|i: int| 0 <= i < s.len() ==> is_scalar(#[trigger] s[i] as u32),
    ensures
        utf8_bytes(seq![], encoded(&Utf8Codec {  }, s)) == (
            Seq::new(
                s.len(),
                |i: int| Unicode { size: utf8_encode(s[i] as u32).len() as u32, cp: s[i] as u32 },
            ),
            Seq::<u8>::empty(),
        ),
    decreases s.len(),
{
    let want = Seq::new(
        s.len(),
        |i: int| Unicode { size: utf8_encode(s[i] as u32).len() as u32, cp: s[i] as u32 },
    );
    if s.len() == 0 {
        assert(want =~= Seq::<Unicode>::empty());
    } else {
        let init = s.drop_last();
        let c = s.last() as u32;
        assert forall|i: int| 0 <= i < init.len() implies is_scalar(#[trigger] init[i] as u32) by {
            assert(init[i] == s[i]);
        }
        assert(is_scalar(s[s.len() - 1] as u32));
        lemma_utf8_decodes_encoding(init);
        let a = encoded(&Utf8Codec {  }, init);
        let b = utf8_encode(c);
        assert(is_scalar(c));
        lemma_utf8_round_trip(c);
        lemma_utf8_one(c, b.len() as int);
        assert(b.take(b.len() as int) =~= b);
        lemma_utf8_bytes_append(seq![], a, b);
        let w0 = Seq::new(
            init.len(),
            |i: int| Unicode { size: utf8_encode(init[i] as u32).len() as u32, cp: init[i] as u32 },
        );
        assert(w0 + seq![Unicode { size: b.len() as u32, cp: c }] =~= want);
    }
}

/// The decoder of a stream of UTF-8 bytes: the bytes of an incomplete
/// sequence wait for the next ones.
pub struct Utf8FilterCtx {
    cp_size: usize,
    accum_size: u32,
    accum: [u8; 4],
    error: bool,
    out: Vec<Unicode>,
}

impl Utf8FilterCtx {
    /// The bytes waiting for the end of their sequence.
    pub closed spec fn pending(&self) -> Seq<u8> {
        self.accum@.take(self.cp_size as int)
    }

    /// The code points decoded since the output was last taken.
    pub closed spec fn decoded(&self) -> Seq<Unicode> {
        self.out@
    }

    /// The pending bytes start a sequence, and the counters agree.
    pub closed spec fn wf(&self) -> bool {
        &&& self.cp_size <= 3
        &&& self.accum_size == self.cp_size
        &&& (self.cp_size > 0 ==> utf8_incomplete(self.pending()))
    }

    pub fn new() -> (c: Utf8FilterCtx)
        ensures
            c.wf(),
            c.pending() == Seq::<u8>::empty(),
            c.decoded() == Seq::<Unicode>::empty(),
    {
        let c = Utf8FilterCtx { cp_size: 0, accum_size: 0, accum: [0; 4], error: false, out: vec![] };
        assert(c.pending() =~= Seq::<u8>::empty());
        c
    }
}

/// `t` is invalid: it starts with a byte that starts no sequence.
proof fn lemma_cont_invalid(t: Seq<u8>)
    requires
        t.len() >= 1,
        is_cont(t[0]),
    ensures
        utf8_seq_len(t, 0) == 0,
        !utf8_incomplete(t),
{
}

/// Decodes the byte `val` after the pending bytes (see `utf8_feed`).
fn filter_utf8_byte(ctx: &mut Utf8FilterCtx, val: u8)
    requires
        old(ctx).wf(),
    ensures
        final(ctx).wf(),
        final(ctx).decoded() == old(ctx).decoded() + utf8_feed(old(ctx).pending(), val).0,
        final(ctx).pending() == utf8_feed(old(ctx).pending(), val).1,
{
    let ghost p = ctx.pending();
    let ghost out0 = ctx.out@;
    let ghost whole = p.push(val);
    let ghost fresh = utf8_feed(Seq::<u8>::empty(), val);
    let ghost rep = Seq::new(p.len(), |_i: int| replacement());
    ctx.accum[ctx.cp_size] = val;
    ctx.accum_size = ctx.accum_size + 1;
    assert(ctx.accum@.take(ctx.accum_size as int) =~= whole);
    assert(whole.skip(0) =~= whole);
    loop
        invariant
            1 <= ctx.accum_size <= 4,
            ctx.accum_size <= whole.len(),
            ctx.accum@.take(ctx.accum_size as int) == whole.skip(whole.len() - ctx.accum_size),
            whole == p.push(val),
            p == old(ctx).pending(),
            out0 == old(ctx).decoded(),
            rep == Seq::new(p.len(), |_i: int| replacement()),
            fresh == utf8_feed(Seq::<u8>::empty(), val),
            p.len() <= 3,
            p.len() > 0 ==> utf8_incomplete(p),
            ctx.accum_size < whole.len() ==> {
                &&& utf8_seq_len(whole, 0) != whole.len()
                &&& !utf8_incomplete(whole)
                &&& p.len() > 0
                &&& utf8_feed(p, val) == (rep + fresh.0, fresh.1)
                &&& ctx.out@ == out0 + Seq::new(
                    (whole.len() - ctx.accum_size) as nat,
                    |_i: int| replacement(),
                )
            },
            ctx.accum_size == whole.len() ==> ctx.out@ == out0,
        decreases ctx.accum_size,
    {
        let n = ctx.accum_size as usize;
        let mut t: Vec<u8> = Vec::new();
        let mut i: usize = 0;
        while i < n
            invariant
                n == ctx.accum_size,
                n <= 4,
                0 <= i <= n,
                t@ == ctx.accum@.take(i as int),
            decreases n - i,
        {
            t.push(ctx.accum[i]);
            assert(t@ =~= ctx.accum@.take(i + 1));
            i = i + 1;
        }
        let ghost tv = whole.skip(whole.len() - n);
        assert(t@ == tv);
        proof {
            if 2 <= n < whole.len() {
                let k = whole.len() - n;
                assert(tv[0] == p[k]);
                assert(is_cont(p[k])) by {
                    if k == 1 {
                        assert(utf8_second_ok(p[0], p[1]));
                    } else {
                        assert(p.len() >= 3);
                    }
                }
                lemma_cont_invalid(tv);
            }
            if n == 1 && n < whole.len() {
                assert(tv =~= Seq::<u8>::empty().push(val));
            }
            if n == whole.len() {
                assert(tv =~= whole);
            }
        }
        let len = seq_len_at(t.as_slice(), 0);
        if len == n {
            let cp = value_at(t.as_slice(), 0, n);
            ctx.out.push(Unicode { size: n as u32, cp });
            ctx.cp_size = 0;
            ctx.accum_size = 0;
            assert(ctx.pending() =~= Seq::<u8>::empty());
            proof {
                let u = Unicode { size: n as u32, cp };
                if n < whole.len() {
                    let e = Seq::<u8>::empty();
                    assert(e.push(val) =~= tv);
                    assert(fresh.0 =~= seq![u]);
                    assert(fresh.1 =~= e);
                    assert(ctx.out@ =~= out0 + (rep + fresh.0));
                } else {
                    assert(utf8_feed(p, val).0 =~= seq![u]);
                    assert(utf8_feed(p, val).1 =~= Seq::<u8>::empty());
                }
            }
            return ;
        }
        let b0 = t[0];
        let expected: usize = if 0xc2 <= b0 && b0 <= 0xdf {
            2
        } else if 0xe0 <= b0 && b0 <= 0xef {
            3
        } else if 0xf0 <= b0 && b0 <= 0xf4 {
            4
        } else {
            0
        };
        let mut second_ok = true;
        if n >= 2 {
            let b1 = t[1];
            let lo: u8 = if b0 == 0xe0 {
                0xa0
            } else if b0 == 0xf0 {
                0x90
            } else {
                0x80
            };
            let hi: u8 = if b0 == 0xed {
                0x9f
            } else if b0 == 0xf4 {
                0x8f
            } else {
                0xbf
            };
            second_ok = lo <= b1 && b1 <= hi;
        }
        let third_ok = n < 3 || (0x80 <= t[2] && t[2] <= 0xbf);
        if n < expected && second_ok && third_ok {
            assert(utf8_incomplete(tv));
            ctx.cp_size = n;
            assert(ctx.pending() =~= tv);
            proof {
                if n < whole.len() {
                    let e = Seq::<u8>::empty();
                    assert(e.push(val) =~= tv);
                    assert(fresh.0 =~= Seq::<Unicode>::empty());
                    assert(fresh.1 =~= tv);
                    assert(ctx.out@ =~= out0 + (rep + fresh.0));
                } else {
                    assert(utf8_feed(p, val).0 =~= Seq::<Unicode>::empty());
                    assert(utf8_feed(p, val).1 =~= whole);
                    assert(ctx.out@ =~= out0 + Seq::<Unicode>::empty());
                }
            }
            return ;
        }
        assert(!utf8_incomplete(tv));
        ctx.out.push(Unicode { size: 1, cp: 0xfffd });
        let a0 = ctx.accum[0];
        ctx.accum[0] = ctx.accum[1];
        ctx.accum[1] = ctx.accum[2];
        ctx.accum[2] = ctx.accum[3];
        ctx.accum[3] = a0;
        ctx.accum_size = ctx.accum_size - 1;
        ctx.cp_size = 0;
        if ctx.accum_size == 0 {
            assert(ctx.pending() =~= Seq::<u8>::empty());
            proof {
                if n < whole.len() {
                    let e = Seq::<u8>::empty();
                    assert(e.push(val) =~= tv);
                    assert(fresh.0 =~= seq![replacement()]);
                    assert(fresh.1 =~= e);
                    assert(ctx.out@ =~= out0 + (rep + fresh.0));
                } else {
                    assert(p.len() == 0);
                    assert(utf8_feed(p, val).0 =~= seq![replacement()]);
                    assert(utf8_feed(p, val).1 =~= Seq::<u8>::empty());
                    assert(ctx.out@ =~= out0 + seq![replacement()]);
                }
            }
            return ;
        }
        proof {
            if n == whole.len() {
                assert(utf8_feed(p, val) == (rep + fresh.0, fresh.1));
            }
        }
        assert(ctx.accum@.take(ctx.accum_size as int) =~= whole.skip(whole.len() - ctx.accum_size));
        assert(ctx.out@ =~= out0 + Seq::new(
            (whole.len() - ctx.accum_size) as nat,
            |_i: int| replacement(),
        ));
    }
}

/// The array of the code points `v`, as the decoder sends it: no offset.
pub open spec fn decoded_array(v: Seq<Unicode>) -> FilterIoModel {
    FilterIoModel {
        metadata: false,
        style: TextStyle::spec_new(),
        offset: None,
        size: 0,
        data: FilterDataModel::UnicodeArray(v),
    }
}

/// Decodes the bytes of `vec` after the pending bytes, and appends to
/// `filter_out` the array of the code points they complete.
pub fn filter_utf8_bytearray(ctx: &mut Utf8FilterCtx, vec: &Vec<u8>, filter_out: &mut Vec<FilterIo>)
    requires
        old(ctx).wf(),
    ensures
        final(ctx).wf(),
        ({
            let r = utf8_bytes(old(ctx).pending(), vec@);
            &&& final(ctx).pending() == r.1
            &&& final(ctx).decoded() == r.0
            &&& ios(final(filter_out)@) == ios(old(filter_out)@).push(decoded_array(r.0))
        }),
{
    let ghost p0 = ctx.pending();
    ctx.out.clear();
    let n = vec.len();
    let mut i: usize = 0;
    assert(vec@.take(0) =~= Seq::<u8>::empty());
    while i < n
        invariant
            n == vec@.len(),
            0 <= i <= n,
            ctx.wf(),
            ({
                let r = utf8_bytes(p0, vec@.take(i as int));
                &&& ctx.pending() == r.1
                &&& ctx.decoded() == r.0
            }),
        decreases n - i,
    {
        proof {
            assert(vec@.take(i + 1).drop_last() =~= vec@.take(i as int));
        }
        filter_utf8_byte(ctx, vec[i]);
        i = i + 1;
    }
    assert(vec@.take(n as int) =~= vec@);
    let out = ctx.out.clone();
    assert(out@ =~= ctx.out@);
    let ghost prev = filter_out@;
    let io = FilterIo {
        metadata: false,
        style: TextStyle::new(),
        offset: None,
        size: 0,
        data: FilterData::UnicodeArray { vec: out },
    };
    let ghost m = io@;
    filter_out.push(io);
    assert(ios(filter_out@) =~= ios(prev).push(m));
}

/// One element through the UTF-8 filter, with the pending bytes `p` and
/// the code points `out` decoded so far: a byte array gives the array of
/// the code points it completes; an end marker goes through, and the
/// pending bytes are counted as replacement characters in the decoder's
/// output (which the next array starts afresh).
pub open spec fn utf8_step(p: Seq<u8>, out: Seq<Unicode>, io: FilterIoModel) -> (
    Seq<u8>,
    Seq<Unicode>,
    Seq<FilterIoModel>,
) {
    match io.data {
        FilterDataModel::ByteArray(v) => {
            let r = utf8_bytes(p, v);
            (r.1, r.0, seq![decoded_array(r.0)])
        },
        _ => (p, out + Seq::new(p.len(), |_i: int| replacement()), seq![io]),
    }
}

/// The elements `s` through the UTF-8 filter, element by element.
pub open spec fn utf8_run(p: Seq<u8>, out: Seq<Unicode>, s: Seq<FilterIoModel>) -> (
    Seq<u8>,
    Seq<Unicode>,
    Seq<FilterIoModel>,
)
    decreases s.len(),
{
    if s.len() == 0 {
        (p, out, seq![])
    } else {
        let r = utf8_run(p, out, s.drop_last());
        let t = utf8_step(r.0, r.1, s.last());
        (t.0, t.1, r.2 + t.2)
    }
}

/// The UTF-8 filter accepts byte arrays and end markers.
pub open spec fn utf8_accepts(io: FilterIoModel) -> bool {
    io.data is ByteArray || io.data is EndOfStream || io.data is CustomLimitReached
}

/// Decodes the bytes read from the document as UTF-8.
pub struct Utf8Filter {
    ctx: Utf8FilterCtx,
}

impl Utf8Filter {
    /// The bytes waiting for the end of their sequence.
    pub closed spec fn pending(&self) -> Seq<u8> {
        self.ctx.pending()
    }

    /// The code points decoded from the last array.
    pub closed spec fn decoded(&self) -> Seq<Unicode> {
        self.ctx.decoded()
    }

    pub closed spec fn wf(&self) -> bool {
        self.ctx.wf()
    }

    pub fn new() -> (f: Utf8Filter)
        ensures
            f.wf(),
            f.pending() == Seq::<u8>::empty(),
            f.decoded() == Seq::<Unicode>::empty(),
    {
        Utf8Filter { ctx: Utf8FilterCtx::new() }
    }

    /// Starts a layout pass with a fresh decoder.
    pub fn setup(&mut self)
        ensures
            final(self).wf(),
            final(self).pending() == Seq::<u8>::empty(),
            final(self).decoded() == Seq::<Unicode>::empty(),
    {
        self.ctx = Utf8FilterCtx::new();
    }

    /// Appends to `filter_out`, for each byte array of `filter_in`, the
    /// array of the code points it completes (see `utf8_run`); end markers
    /// go through. An empty input empties `filter_out`.
    pub fn run(&mut self, filter_in: &[FilterIo], filter_out: &mut Vec<FilterIo>)
        requires
            old(self).wf(),
            forall|k: int| 0 <= k < filter_in@.len() ==> utf8_accepts(#[trigger] filter_in@[k]@),
        ensures
            final(self).wf(),
            filter_in@.len() == 0 ==> final(filter_out)@.len() == 0 && final(self).pending()
                == old(self).pending() && final(self).decoded() == old(self).decoded(),
            filter_in@.len() > 0 ==> {
                let r = utf8_run(old(self).pending(), Seq::<Unicode>::empty(), ios(filter_in@));
                &&& final(self).pending() == r.0
                &&& final(self).decoded() == r.1
                &&& ios(final(filter_out)@) == ios(old(filter_out)@) + r.2
            },
    {
        if filter_in.len() == 0 {
            *filter_out = Vec::new();
            return ;
        }
        self.ctx.out.clear();
        let ghost p0 = self.ctx.pending();
        let ghost input = ios(filter_in@);
        let ghost out0 = ios(filter_out@);
        let n = filter_in.len();
        let mut i: usize = 0;
        assert(self.ctx.out@ =~= Seq::<Unicode>::empty());
        while i < n
            invariant
                n == filter_in@.len(),
                input == ios(filter_in@),
                0 <= i <= n,
                self.ctx.wf(),
                forall|k: int| 0 <= k < filter_in@.len() ==> utf8_accepts(#[trigger] filter_in@[k]@),
                ({
                    let r = utf8_run(p0, Seq::<Unicode>::empty(), input.take(i as int));
                    &&& self.ctx.pending() == r.0
                    &&& self.ctx.decoded() == r.1
                    &&& ios(filter_out@) == out0 + r.2
                }),
            decreases n - i,
        {
            proof {
                assert(input.take(i + 1).drop_last() =~= input.take(i as int));
                assert(input.take(i + 1).last() == filter_in@[i as int]@);
                assert(utf8_accepts(filter_in@[i as int]@));
            }
            let d = &filter_in[i];
            let ghost before = ios(filter_out@);
            match &d.data {
                FilterData::ByteArray { vec } => {
                    filter_utf8_bytearray(&mut self.ctx, vec, filter_out);
                    assert(ios(filter_out@) =~= before + seq![decoded_array(self.ctx.decoded())]);
                },
                _ => {
                    let ghost o = self.ctx.out@;
                    let m = self.ctx.cp_size;
                    let mut j: usize = 0;
                    while j < m
                        invariant
                            m == self.ctx.cp_size,
                            0 <= j <= m,
                            self.ctx.wf(),
                            self.ctx.pending() == utf8_run(
                                p0,
                                Seq::<Unicode>::empty(),
                                input.take(i as int),
                            ).0,
                            self.ctx.out@ == o + Seq::new(j as nat, |_i: int| replacement()),
                        decreases m - j,
                    {
                        self.ctx.out.push(Unicode { cp: 0xfffd, size: 1 });
                        assert(self.ctx.out@ =~= o + Seq::new((j + 1) as nat, |_i: int| replacement()));
                        j = j + 1;
                    }
                    let ghost dm = d@;
                    filter_out.push(d.duplicate());
                    assert(ios(filter_out@) =~= before.push(dm));
                    assert(self.ctx.pending().len() == m);
                },
            }
            i = i + 1;
        }
        assert(input.take(n as int) =~= input);
    }
}

} // verus!
