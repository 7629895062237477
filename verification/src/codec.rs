//! Text codecs: how code points are read from and written to bytes.
//!
//! A codec decodes one code point forward (starting at a position) or
//! backward (ending at a position). An invalid or truncated sequence decodes
//! to U+FFFD and consumes one byte, so that decoding always progresses.

use vstd::prelude::*;

verus! {

#[derive(Debug, Clone, Copy, PartialEq, Eq, Structural)]
pub enum SyncDirection {
    Forward,
    Backward,
}

pub trait TextCodec {
    /// What `decode` returns: the code point, its position in `data` and
    /// its size in bytes.
    spec fn spec_decode(&self, direction: SyncDirection, data: Seq<u8>, from: int) -> (char, u64, usize);

    /// The bytes that `encode` writes for a code point.
    spec fn spec_encode(&self, codepoint: u32) -> Seq<u8>;

    /// Decodes the code point that starts at `from` (forward) or ends at
    /// `from` (backward).
    fn decode(&self, direction: SyncDirection, data: &[u8], from: u64) -> (r: (char, u64, usize))
        requires
            from <= data@.len(),
        ensures
            r == self.spec_decode(direction, data@, from as int),
            r.2 <= 4,
            direction == SyncDirection::Forward ==> r.2 <= data@.len() - from && (from
                < data@.len() ==> r.2 >= 1),
            direction == SyncDirection::Backward ==> r.2 <= from && (from > 0 ==> r.2 >= 1),
    ;

    /// Writes the bytes of `codepoint` at the start of `out`, returns how
    /// many.
    fn encode(&self, codepoint: u32, out: &mut [u8; 4]) -> (n: usize)
        ensures
            1 <= n <= 4,
            self.spec_encode(codepoint).len() == n,
            final(out)@.subrange(0, n as int) == self.spec_encode(codepoint),
    ;
}

/// Is `b` a UTF-8 continuation byte?
pub open spec fn is_cont(b: u8) -> bool {
    0x80 <= b <= 0xbf
}

/// Length of the well-formed UTF-8 sequence (RFC 3629) that starts at
/// `i` in `s`, or 0 when there is none.
pub open spec fn utf8_seq_len(s: Seq<u8>, i: int) -> int {
    if i < 0 || i >= s.len() {
        0
    } else {
        let b0 = s[i];
        let has = |k: int| i + k < s.len();
        if b0 < 0x80 {
            1
        } else if 0xc2 <= b0 <= 0xdf {
            if has(1) && is_cont(s[i + 1]) {
                2
            } else {
                0
            }
        } else if 0xe0 <= b0 <= 0xef {
            let lo: u8 = if b0 == 0xe0 {
                0xa0
            } else {
                0x80
            };
            let hi: u8 = if b0 == 0xed {
                0x9f
            } else {
                0xbf
            };
            if has(2) && lo <= s[i + 1] <= hi && is_cont(s[i + 2]) {
                3
            } else {
                0
            }
        } else if 0xf0 <= b0 <= 0xf4 {
            let lo: u8 = if b0 == 0xf0 {
                0x90
            } else {
                0x80
            };
            let hi: u8 = if b0 == 0xf4 {
                0x8f
            } else {
                0xbf
            };
            if has(3) && lo <= s[i + 1] <= hi && is_cont(s[i + 2]) && is_cont(s[i + 3]) {
                4
            } else {
                0
            }
        } else {
            0
        }
    }
}

/// The scalar value of the `n`-byte sequence at `i`.
pub open spec fn utf8_value(s: Seq<u8>, i: int, n: int) -> u32 {
    if n == 1 {
        s[i] as u32
    } else if n == 2 {
        (((s[i] & 0x1f) as u32) << 6u32) | ((s[i + 1] & 0x3f) as u32)
    } else if n == 3 {
        (((s[i] & 0x0f) as u32) << 12u32) | (((s[i + 1] & 0x3f) as u32) << 6u32) | ((s[i + 2]
            & 0x3f) as u32)
    } else {
        (((s[i] & 0x07) as u32) << 18u32) | (((s[i + 1] & 0x3f) as u32) << 12u32) | (((s[i + 2]
            & 0x3f) as u32) << 6u32) | ((s[i + 3] & 0x3f) as u32)
    }
}

/// Is `v` a Unicode scalar value?
pub open spec fn is_scalar(v: u32) -> bool {
    v <= 0x10ffff && !(0xd800 <= v <= 0xdfff)
}

/// The code point `v`, U+FFFD when `v` is not a scalar value.
pub open spec fn scalar_char(v: u32) -> char {
    if is_scalar(v) {
        v as char
    } else {
        '\u{fffd}'
    }
}

/// `char::from_u32`: `Some(c)` with `c as u32 == v` when `v` is a Unicode
/// scalar value, `None` otherwise (as its documentation states).
#[verifier::external_body]
fn char_from_u32(v: u32) -> (r: Option<char>)
    ensures
        r is Some <==> is_scalar(v),
        r matches Some(c) ==> c as u32 == v,
{
    char::from_u32(v)
}

/// The code point `v`, U+FFFD when `v` is not a scalar value.
pub fn u32_to_char(v: u32) -> (c: char)
    ensures
        c == scalar_char(v),
{
    match char_from_u32(v) {
        Some(c) => {
            proof {
                vstd::utf8::char_u32_cast(c, v);
            }
            c
        },
        None => '\u{fffd}',
    }
}

/// The backward decoding length at `from`: the `k` in `1..=4` such that a
/// well-formed sequence of `k` bytes ends at `from`, 0 when there is none.
pub open spec fn utf8_back_len(s: Seq<u8>, from: int) -> int {
    if from >= 1 && utf8_seq_len(s, from - 1) == 1 {
        1
    } else if from >= 2 && utf8_seq_len(s, from - 2) == 2 {
        2
    } else if from >= 3 && utf8_seq_len(s, from - 3) == 3 {
        3
    } else if from >= 4 && utf8_seq_len(s, from - 4) == 4 {
        4
    } else {
        0
    }
}

/// UTF-8 decoding of `data` at `from`, forward or backward.
pub open spec fn utf8_decode(direction: SyncDirection, data: Seq<u8>, from: int) -> (char, u64, usize) {
    match direction {
        SyncDirection::Forward => {
            if from >= data.len() {
                ('\0', from as u64, 0usize)
            } else if utf8_seq_len(data, from) > 0 {
                let n = utf8_seq_len(data, from);
                (scalar_char(utf8_value(data, from, n)), from as u64, n as usize)
            } else {
                ('\u{fffd}', from as u64, 1usize)
            }
        },
        SyncDirection::Backward => {
            if from <= 0 {
                ('\0', 0u64, 0usize)
            } else if utf8_back_len(data, from) > 0 {
                let k = utf8_back_len(data, from);
                (scalar_char(utf8_value(data, from - k, k)), (from - k) as u64, k as usize)
            } else {
                ('\u{fffd}', (from - 1) as u64, 1usize)
            }
        },
    }
}

/// The UTF-8 encoding of a scalar value; U+FFFD's for other values.
pub open spec fn utf8_encode(cp: u32) -> Seq<u8> {
    if cp < 0x80 {
        seq![cp as u8]
    } else if cp < 0x800 {
        seq![(0xc0 | (cp >> 6u32)) as u8, (0x80 | (cp & 0x3f)) as u8]
    } else if cp < 0x10000 && !(0xd800 <= cp <= 0xdfff) {
        seq![
            (0xe0 | (cp >> 12u32)) as u8,
            (0x80 | ((cp >> 6u32) & 0x3f)) as u8,
            (0x80 | (cp & 0x3f)) as u8,
        ]
    } else if 0x10000 <= cp <= 0x10ffff {
        seq![
            (0xf0 | (cp >> 18u32)) as u8,
            (0x80 | ((cp >> 12u32) & 0x3f)) as u8,
            (0x80 | ((cp >> 6u32) & 0x3f)) as u8,
            (0x80 | (cp & 0x3f)) as u8,
        ]
    } else {
        seq![0xefu8, 0xbfu8, 0xbdu8]
    }
}

/// Encoding a scalar value, then decoding the bytes from their start, gives
/// the value back and consumes all the bytes.
pub proof fn lemma_utf8_round_trip(cp: u32)
    requires
        is_scalar(cp),
    ensures
        utf8_decode(SyncDirection::Forward, utf8_encode(cp), 0) == (
            cp as char,
            0u64,
            utf8_encode(cp).len() as usize,
        ),
        1 <= utf8_encode(cp).len() <= 4,
        utf8_seq_len(utf8_encode(cp), 0) == utf8_encode(cp).len(),
        utf8_value(utf8_encode(cp), 0, utf8_encode(cp).len() as int) == cp,
{
    let s = utf8_encode(cp);
    if cp < 0x80 {
        assert(((cp as u8) as u32) == cp) by (bit_vector)
            requires
                cp < 0x80,
        ;
        assert(utf8_seq_len(s, 0) == 1);
        assert(utf8_value(s, 0, 1) == cp);
    } else if cp < 0x800 {
        let b0 = (0xc0 | (cp >> 6u32)) as u8;
        let b1 = (0x80 | (cp & 0x3f)) as u8;
        assert(0xc2 <= b0 <= 0xdf && 0x80 <= b1 <= 0xbf && ((((b0 & 0x1f) as u32) << 6u32) | ((b1
            & 0x3f) as u32)) == cp) by (bit_vector)
            requires
                0x80 <= cp < 0x800,
                b0 == (0xc0 | (cp >> 6u32)) as u8,
                b1 == (0x80 | (cp & 0x3f)) as u8,
        ;
        assert(s[0] == b0 && s[1] == b1);
        assert(utf8_seq_len(s, 0) == 2);
        assert(utf8_value(s, 0, 2) == cp);
    } else if cp < 0x10000 {
        let b0 = (0xe0 | (cp >> 12u32)) as u8;
        let b1 = (0x80 | ((cp >> 6u32) & 0x3f)) as u8;
        let b2 = (0x80 | (cp & 0x3f)) as u8;
        assert({
            &&& 0xe0 <= b0 <= 0xef
            &&& (if b0 == 0xe0 {
                0xa0u8
            } else {
                0x80u8
            }) <= b1 <= (if b0 == 0xed {
                0x9fu8
            } else {
                0xbfu8
            })
            &&& 0x80 <= b2 <= 0xbf
            &&& ((((b0 & 0x0f) as u32) << 12u32) | (((b1 & 0x3f) as u32) << 6u32) | ((b2
                & 0x3f) as u32)) == cp
        }) by (bit_vector)
            requires
                0x800 <= cp < 0x10000,
                !(0xd800 <= cp <= 0xdfff),
                b0 == (0xe0 | (cp >> 12u32)) as u8,
                b1 == (0x80 | ((cp >> 6u32) & 0x3f)) as u8,
                b2 == (0x80 | (cp & 0x3f)) as u8,
        ;
        assert(s[0] == b0 && s[1] == b1 && s[2] == b2);
        assert(utf8_seq_len(s, 0) == 3);
        assert(utf8_value(s, 0, 3) == cp);
    } else {
        let b0 = (0xf0 | (cp >> 18u32)) as u8;
        let b1 = (0x80 | ((cp >> 12u32) & 0x3f)) as u8;
        let b2 = (0x80 | ((cp >> 6u32) & 0x3f)) as u8;
        let b3 = (0x80 | (cp & 0x3f)) as u8;
        assert({
            &&& 0xf0 <= b0 <= 0xf4
            &&& (if b0 == 0xf0 {
                0x90u8
            } else {
                0x80u8
            }) <= b1 <= (if b0 == 0xf4 {
                0x8fu8
            } else {
                0xbfu8
            })
            &&& 0x80 <= b2 <= 0xbf
            &&& 0x80 <= b3 <= 0xbf
            &&& ((((b0 & 0x07) as u32) << 18u32) | (((b1 & 0x3f) as u32) << 12u32) | (((b2
                & 0x3f) as u32) << 6u32) | ((b3 & 0x3f) as u32)) == cp
        }) by (bit_vector)
            requires
                0x10000 <= cp <= 0x10ffff,
                b0 == (0xf0 | (cp >> 18u32)) as u8,
                b1 == (0x80 | ((cp >> 12u32) & 0x3f)) as u8,
                b2 == (0x80 | ((cp >> 6u32) & 0x3f)) as u8,
                b3 == (0x80 | (cp & 0x3f)) as u8,
        ;
        assert(s[0] == b0 && s[1] == b1 && s[2] == b2 && s[3] == b3);
        assert(utf8_seq_len(s, 0) == 4);
        assert(utf8_value(s, 0, 4) == cp);
    }
}

/// Decoding forward at the start of the encoding of a scalar value,
/// wherever it stands in a document, gives the value back, with its whole
/// length.
pub proof fn lemma_utf8_round_trip_within(pre: Seq<u8>, cp: u32, post: Seq<u8>)
    requires
        is_scalar(cp),
    ensures
        ({
            let e = utf8_encode(cp);
            let s = pre + e + post;
            &&& utf8_seq_len(s, pre.len() as int) == e.len()
            &&& utf8_value(s, pre.len() as int, e.len() as int) == cp
            &&& utf8_decode(SyncDirection::Forward, s, pre.len() as int) == (
                cp as char,
                pre.len() as u64,
                e.len() as usize,
            )
        }),
{
    lemma_utf8_round_trip(cp);
    let e = utf8_encode(cp);
    let s = pre + e + post;
    let p = pre.len() as int;
    let n = e.len() as int;
    assert(s[p] == e[0]);
    if n >= 2 {
        assert(s[p + 1] == e[1]);
    }
    if n >= 3 {
        assert(s[p + 2] == e[2]);
    }
    if n >= 4 {
        assert(s[p + 3] == e[3]);
    }
    assert(utf8_seq_len(s, p) == n);
    assert(utf8_value(s, p, n) == utf8_value(e, 0, n));
}

/// Decoding backward from the end of the encoding of a scalar value,
/// wherever it stands in a document, gives the value back, with the offset
/// where its encoding starts and its whole length.
pub proof fn lemma_utf8_back_round_trip(pre: Seq<u8>, cp: u32, post: Seq<u8>)
    requires
        is_scalar(cp),
    ensures
        ({
            let e = utf8_encode(cp);
            utf8_decode(SyncDirection::Backward, pre + e + post, (pre.len() + e.len()) as int) == (
                cp as char,
                pre.len() as u64,
                e.len() as usize,
            )
        }),
{
    lemma_utf8_round_trip(cp);
    let e = utf8_encode(cp);
    let s = pre + e + post;
    let p = pre.len() as int;
    let n = e.len() as int;
    assert forall|j: int| 0 <= j < n implies #[trigger] s[p + j] == e[j] by {}
    assert(s[p] == e[0]);
    if n >= 2 {
        assert(s[p + 1] == e[1]);
        assert(is_cont(e[1]));
    }
    if n >= 3 {
        assert(s[p + 2] == e[2]);
        assert(is_cont(e[2]));
    }
    if n >= 4 {
        assert(s[p + 3] == e[3]);
        assert(is_cont(e[3]));
    }
    assert(utf8_seq_len(s, p) == n);
    assert(utf8_value(s, p, n) == utf8_value(e, 0, n));
    assert(utf8_back_len(s, p + n) == n);
}

/// Decoding backward from `from`, after the start of the data, reads between
/// one and four bytes, none before the start, and gives the offset where
/// they start; when they are a well-formed sequence, decoding forward from
/// that offset reads the same code point over the same bytes.
pub proof fn lemma_utf8_backward_then_forward(data: Seq<u8>, from: int)
    requires
        0 < from <= data.len() <= u64::MAX,
    ensures
        ({
            let r = utf8_decode(SyncDirection::Backward, data, from);
            &&& 1 <= r.2 <= 4
            &&& r.2 <= from
            &&& r.1 == from - r.2
            &&& utf8_back_len(data, from) > 0 ==> utf8_decode(SyncDirection::Forward, data, from - r.2)
                == (r.0, r.1, r.2)
        }),
{
    let k = utf8_back_len(data, from);
    if k > 0 {
        assert(utf8_seq_len(data, from - k) == k);
    }
}

/// Length of the well-formed sequence at `i` (see `utf8_seq_len`).
pub(crate) fn seq_len_at(s: &[u8], i: usize) -> (n: usize)
    ensures
        n == utf8_seq_len(s@, i as int),
{
    if i >= s.len() {
        return 0;
    }
    let b0 = s[i];
    if b0 < 0x80 {
        1
    } else if 0xc2 <= b0 && b0 <= 0xdf {
        if s.len() - i > 1 && 0x80 <= s[i + 1] && s[i + 1] <= 0xbf {
            2
        } else {
            0
        }
    } else if 0xe0 <= b0 && b0 <= 0xef {
        let lo: u8 = if b0 == 0xe0 {
            0xa0
        } else {
            0x80
        };
        let hi: u8 = if b0 == 0xed {
            0x9f
        } else {
            0xbf
        };
        if s.len() - i > 2 && lo <= s[i + 1] && s[i + 1] <= hi && 0x80 <= s[i + 2] && s[i + 2]
            <= 0xbf {
            3
        } else {
            0
        }
    } else if 0xf0 <= b0 && b0 <= 0xf4 {
        let lo: u8 = if b0 == 0xf0 {
            0x90
        } else {
            0x80
        };
        let hi: u8 = if b0 == 0xf4 {
            0x8f
        } else {
            0xbf
        };
        if s.len() - i > 3 && lo <= s[i + 1] && s[i + 1] <= hi && 0x80 <= s[i + 2] && s[i + 2]
            <= 0xbf && 0x80 <= s[i + 3] && s[i + 3] <= 0xbf {
            4
        } else {
            0
        }
    } else {
        0
    }
}

/// Scalar value of the `n`-byte sequence at `i`.
pub(crate) fn value_at(s: &[u8], i: usize, n: usize) -> (v: u32)
    requires
        1 <= n <= 4,
        i + n <= s@.len(),
    ensures
        v == utf8_value(s@, i as int, n as int),
{
    if n == 1 {
        s[i] as u32
    } else if n == 2 {
        (((s[i] & 0x1f) as u32) << 6u32) | ((s[i + 1] & 0x3f) as u32)
    } else if n == 3 {
        (((s[i] & 0x0f) as u32) << 12u32) | (((s[i + 1] & 0x3f) as u32) << 6u32) | ((s[i + 2]
            & 0x3f) as u32)
    } else {
        (((s[i] & 0x07) as u32) << 18u32) | (((s[i + 1] & 0x3f) as u32) << 12u32) | (((s[i + 2]
            & 0x3f) as u32) << 6u32) | ((s[i + 3] & 0x3f) as u32)
    }
}

/// The UTF-8 codec.
pub struct Utf8Codec {}

impl Utf8Codec {
    pub fn new() -> Self {
        Utf8Codec {  }
    }
}

impl TextCodec for Utf8Codec {
    open spec fn spec_decode(&self, direction: SyncDirection, data: Seq<u8>, from: int) -> (char, u64, usize) {
        utf8_decode(direction, data, from)
    }

    open spec fn spec_encode(&self, codepoint: u32) -> Seq<u8> {
        utf8_encode(codepoint)
    }

    fn decode(&self, direction: SyncDirection, data: &[u8], from: u64) -> (r: (char, u64, usize)) {
        let len = data.len();
        assert(from <= len);
        let from_u: usize = from as usize;
        assert(from_u == from);
        match direction {
            SyncDirection::Forward => {
                if from_u >= data.len() {
                    return ('\0', from, 0);
                }
                let n = seq_len_at(data, from_u);
                if n > 0 {
                    let v = value_at(data, from_u, n);
                    (u32_to_char(v), from, n)
                } else {
                    ('\u{fffd}', from, 1)
                }
            },
            SyncDirection::Backward => {
                if from_u == 0 {
                    return ('\0', 0, 0);
                }
                let mut k: usize = 0;
                if from_u >= 1 && seq_len_at(data, from_u - 1) == 1 {
                    k = 1;
                } else if from_u >= 2 && seq_len_at(data, from_u - 2) == 2 {
                    k = 2;
                } else if from_u >= 3 && seq_len_at(data, from_u - 3) == 3 {
                    k = 3;
                } else if from_u >= 4 && seq_len_at(data, from_u - 4) == 4 {
                    k = 4;
                }
                if k > 0 {
                    let v = value_at(data, from_u - k, k);
                    (u32_to_char(v), (from_u - k) as u64, k)
                } else {
                    ('\u{fffd}', (from_u - 1) as u64, 1)
                }
            },
        }
    }

    fn encode(&self, codepoint: u32, out: &mut [u8; 4]) -> (n: usize) {
        let cp = codepoint;
        if cp < 0x80 {
            out[0] = cp as u8;
            proof {
                assert(out@.subrange(0, 1) =~= utf8_encode(codepoint));
            }
            1
        } else if cp < 0x800 {
            out[0] = (0xc0 | (cp >> 6u32)) as u8;
            out[1] = (0x80 | (cp & 0x3f)) as u8;
            proof {
                assert(out@.subrange(0, 2) =~= utf8_encode(codepoint));
            }
            2
        } else if cp < 0x10000 && !(0xd800 <= cp && cp <= 0xdfff) {
            out[0] = (0xe0 | (cp >> 12u32)) as u8;
            out[1] = (0x80 | ((cp >> 6u32) & 0x3f)) as u8;
            out[2] = (0x80 | (cp & 0x3f)) as u8;
            proof {
                assert(out@.subrange(0, 3) =~= utf8_encode(codepoint));
            }
            3
        } else if 0x10000 <= cp && cp <= 0x10ffff {
            out[0] = (0xf0 | (cp >> 18u32)) as u8;
            out[1] = (0x80 | ((cp >> 12u32) & 0x3f)) as u8;
            out[2] = (0x80 | ((cp >> 6u32) & 0x3f)) as u8;
            out[3] = (0x80 | (cp & 0x3f)) as u8;
            proof {
                assert(out@.subrange(0, 4) =~= utf8_encode(codepoint));
            }
            4
        } else {
            out[0] = 0xef;
            out[1] = 0xbf;
            out[2] = 0xbd;
            proof {
                assert(out@.subrange(0, 3) =~= utf8_encode(codepoint));
            }
            3
        }
    }
}

} // verus!
