//! The document bytes that marks move over: an in-memory byte buffer with
//! positional reads, inserts and pattern searches.

use vstd::prelude::*;

verus! {

/// A document held as a sequence of bytes.
pub struct Buffer {
    data: Vec<u8>,
}

impl View for Buffer {
    type V = Seq<u8>;

    closed spec fn view(&self) -> Seq<u8> {
        self.data@
    }
}

/// `pattern` occurs in `s` at position `p`.
pub open spec fn occurs_at(s: Seq<u8>, pattern: Seq<u8>, p: int) -> bool {
    0 <= p && p + pattern.len() <= s.len() && s.subrange(p, p + pattern.len()) == pattern
}

/// The bytes of `b` once `data` was inserted at `offset`.
pub open spec fn inserted(b: Seq<u8>, offset: int, data: Seq<u8>) -> Seq<u8> {
    b.subrange(0, offset) + data + b.subrange(offset, b.len() as int)
}

/// Reading at the offset of an insertion, as many bytes as were inserted,
/// gives the inserted bytes; the bytes before and after are those that
/// were there.
pub proof fn lemma_read_after_insert(b: Seq<u8>, offset: int, data: Seq<u8>)
    requires
        0 <= offset <= b.len(),
    ensures
        inserted(b, offset, data).len() == b.len() + data.len(),
        inserted(b, offset, data).subrange(offset, offset + data.len()) == data,
        inserted(b, offset, data).subrange(0, offset) == b.subrange(0, offset),
        inserted(b, offset, data).subrange(offset + data.len(), (b.len() + data.len()) as int)
            == b.subrange(offset, b.len() as int),
{
    let s = inserted(b, offset, data);
    assert(s.subrange(offset, offset + data.len()) =~= data);
    assert(s.subrange(0, offset) =~= b.subrange(0, offset));
    assert(s.subrange(offset + data.len(), (b.len() + data.len()) as int) =~= b.subrange(
        offset,
        b.len() as int,
    ));
}

/// How many of `nr_bytes` bytes a removal at `offset` takes out of `b`:
/// those that lie before the end.
pub open spec fn removal_size(b: Seq<u8>, offset: int, nr_bytes: int) -> int {
    if offset >= b.len() {
        0
    } else if nr_bytes < b.len() - offset {
        nr_bytes
    } else {
        b.len() - offset
    }
}

/// The bytes of `b` once `nr_bytes` bytes were removed at `offset`.
pub open spec fn removed(b: Seq<u8>, offset: int, nr_bytes: int) -> Seq<u8> {
    let n = removal_size(b, offset, nr_bytes);
    if n == 0 {
        b
    } else {
        b.subrange(0, offset) + b.subrange(offset + n, b.len() as int)
    }
}

/// Removing, at the offset of an insertion, as many bytes as were
/// inserted gives back the bytes there were before.
pub proof fn lemma_remove_undoes_insert(b: Seq<u8>, offset: int, data: Seq<u8>)
    requires
        0 <= offset <= b.len(),
    ensures
        removed(inserted(b, offset, data), offset, data.len() as int) == b,
{
    let s = inserted(b, offset, data);
    if data.len() > 0 {
        assert(removal_size(s, offset, data.len() as int) == data.len());
        assert(s.subrange(0, offset) + s.subrange(offset + data.len(), s.len() as int) =~= b);
    } else {
        assert(s =~= b);
    }
}

impl Buffer {
    /// A buffer never holds more bytes than a `usize` counts.
    pub proof fn lemma_size_bound(&self)
        ensures
            self@.len() <= usize::MAX,
    {
        vstd::std_specs::vec::axiom_spec_len(&self.data);
    }

    /// An empty buffer.
    pub fn new() -> (b: Buffer)
        ensures
            b@ == Seq::<u8>::empty(),
    {
        Buffer { data: Vec::new() }
    }

    /// A buffer holding `bytes`.
    pub fn from_bytes(bytes: &[u8]) -> (b: Buffer)
        ensures
            b@ == bytes@,
    {
        let mut data: Vec<u8> = Vec::new();
        let mut i: usize = 0;
        while i < bytes.len()
            invariant
                i <= bytes@.len(),
                data@ == bytes@.subrange(0, i as int),
            decreases bytes@.len() - i,
        {
            data.push(bytes[i]);
            i = i + 1;
            assert(data@ =~= bytes@.subrange(0, i as int));
        }
        assert(data@ =~= bytes@);
        Buffer { data }
    }

    /// Number of bytes.
    pub fn size(&self) -> (n: usize)
        ensures
            n == self@.len(),
    {
        self.data.len()
    }

    /// Inserts the first `nr_bytes` of `data` at `offset`; returns how many
    /// bytes were inserted (none when `offset` is past the end).
    pub fn insert(&mut self, offset: u64, nr_bytes: usize, data: &[u8]) -> (n: usize)
        requires
            nr_bytes <= data@.len(),
            old(self)@.len() + nr_bytes <= usize::MAX,
        ensures
            offset <= old(self)@.len() ==> n == nr_bytes && final(self)@ == inserted(
                old(self)@,
                offset as int,
                data@.subrange(0, nr_bytes as int),
            ),
            offset > old(self)@.len() ==> n == 0 && final(self)@ == old(self)@,
    {
        let size = self.data.len();
        if offset > size as u64 {
            return 0;
        }
        let off = offset as usize;
        let mut out: Vec<u8> = Vec::new();
        let mut i: usize = 0;
        while i < off
            invariant
                i <= off,
                off <= size,
                size == self.data@.len(),
                out@ == self.data@.subrange(0, i as int),
            decreases off - i,
        {
            out.push(self.data[i]);
            i = i + 1;
            assert(out@ =~= self.data@.subrange(0, i as int));
        }
        let mut j: usize = 0;
        while j < nr_bytes
            invariant
                j <= nr_bytes,
                nr_bytes <= data@.len(),
                off <= size,
                size == self.data@.len(),
                out@ == self.data@.subrange(0, off as int) + data@.subrange(0, j as int),
            decreases nr_bytes - j,
        {
            out.push(data[j]);
            j = j + 1;
            assert(out@ =~= self.data@.subrange(0, off as int) + data@.subrange(0, j as int));
        }
        let mut k: usize = off;
        while k < size
            invariant
                off <= k <= size,
                size == self.data@.len(),
                out@ == self.data@.subrange(0, off as int) + data@.subrange(0, nr_bytes as int)
                    + self.data@.subrange(off as int, k as int),
            decreases size - k,
        {
            out.push(self.data[k]);
            k = k + 1;
            assert(out@ =~= self.data@.subrange(0, off as int) + data@.subrange(0, nr_bytes as int)
                + self.data@.subrange(off as int, k as int));
        }
        self.data = out;
        nr_bytes
    }

    /// Removes `nr_bytes` bytes at `offset`, or those up to the end when
    /// fewer are left; returns how many were removed.
    pub fn remove(&mut self, offset: u64, nr_bytes: usize) -> (n: usize)
        ensures
            n == removal_size(old(self)@, offset as int, nr_bytes as int),
            final(self)@ == removed(old(self)@, offset as int, nr_bytes as int),
    {
        let size = self.data.len();
        if offset >= size as u64 {
            return 0;
        }
        let off = offset as usize;
        let n = if nr_bytes < size - off {
            nr_bytes
        } else {
            size - off
        };
        if n == 0 {
            return 0;
        }
        let mut out: Vec<u8> = Vec::new();
        let mut i: usize = 0;
        while i < off
            invariant
                i <= off,
                off + n <= size,
                size == self.data@.len(),
                out@ == self.data@.subrange(0, i as int),
            decreases off - i,
        {
            out.push(self.data[i]);
            i = i + 1;
            assert(out@ =~= self.data@.subrange(0, i as int));
        }
        let mut k: usize = off + n;
        while k < size
            invariant
                off + n <= k <= size,
                size == self.data@.len(),
                out@ == self.data@.subrange(0, off as int) + self.data@.subrange(off + n, k as int),
            decreases size - k,
        {
            out.push(self.data[k]);
            k = k + 1;
            assert(out@ =~= self.data@.subrange(0, off as int) + self.data@.subrange(off + n, k as int));
        }
        self.data = out;
        n
    }

    /// Appends to `out` the bytes from `offset` on, at most `nr_bytes` of
    /// them; returns how many.
    pub fn read(&self, offset: u64, nr_bytes: usize, out: &mut Vec<u8>) -> (n: usize)
        ensures
            n == if offset >= self@.len() {
                0
            } else if nr_bytes < self@.len() - offset {
                nr_bytes as int
            } else {
                self@.len() - offset
            },
            n == 0 ==> final(out)@ == old(out)@,
            n > 0 ==> final(out)@ == old(out)@ + self@.subrange(offset as int, offset + n),
    {
        let size = self.data.len();
        if offset >= size as u64 {
            return 0;
        }
        let off = offset as usize;
        let n = if nr_bytes < size - off {
            nr_bytes
        } else {
            size - off
        };
        let mut i: usize = 0;
        while i < n
            invariant
                i <= n,
                off + n <= size,
                size == self@.len(),
                off == offset,
                out@ == old(out)@ + self@.subrange(off as int, off + i),
            decreases n - i,
        {
            out.push(self.data[off + i]);
            i = i + 1;
            assert(out@ =~= old(out)@ + self@.subrange(off as int, off + i));
        }
        n
    }

    /// Does `pattern` occur at `p`?
    fn matches_at(&self, pattern: &[u8], p: usize) -> (b: bool)
        ensures
            b == occurs_at(self@, pattern@, p as int),
    {
        let size = self.data.len();
        if pattern.len() > size || p > size - pattern.len() {
            return false;
        }
        let mut i: usize = 0;
        while i < pattern.len()
            invariant
                i <= pattern@.len(),
                p + pattern@.len() <= size,
                size == self@.len(),
                forall|k: int| 0 <= k < i ==> self@[p + k] == pattern@[k],
            decreases pattern@.len() - i,
        {
            if self.data[p + i] != pattern[i] {
                assert(self@.subrange(p as int, p + pattern@.len())[i as int] != pattern@[i as int]);
                return false;
            }
            i = i + 1;
        }
        assert(self@.subrange(p as int, p + pattern@.len()) =~= pattern@);
        true
    }

    /// The first position at or after `from`, and before `limit` when there
    /// is one, where `pattern` occurs.
    pub fn find(&self, pattern: &[u8], from: u64, limit: Option<u64>) -> (r: Option<u64>)
        ensures
            match r {
                Some(p) => {
                    &&& from <= p < self@.len()
                    &&& (limit matches Some(l) ==> p < l)
                    &&& occurs_at(self@, pattern@, p as int)
                    &&& forall|q: int| from <= q < p ==> !occurs_at(self@, pattern@, q)
                },
                None => forall|q: int|
                    from <= q < self@.len() && (limit matches Some(l) ==> q < l) ==> !occurs_at(
                        self@,
                        pattern@,
                        q,
                    ),
            },
    {
        let size = self.data.len();
        if from > size as u64 {
            return None;
        }
        let end: u64 = match limit {
            Some(l) => if l < size as u64 {
                l
            } else {
                size as u64
            },
            None => size as u64,
        };
        let mut p: u64 = from;
        while p < end
            invariant
                from <= p,
                end <= size,
                size == self@.len(),
                forall|q: int| from <= q < p ==> !occurs_at(self@, pattern@, q),
                limit matches Some(l) ==> end <= l,
                limit is None ==> end == size,
            decreases end - p,
        {
            if self.matches_at(pattern, p as usize) {
                return Some(p);
            }
            p = p + 1;
        }
        proof {
            assert forall|q: int| from <= q < self@.len() && (limit matches Some(l) ==> q < l) implies !occurs_at(
                self@,
                pattern@,
                q,
            ) by {
                if q >= p {
                    assert(q < end);
                }
            }
        }
        None
    }

    /// The last position where `pattern` occurs and ends at or before
    /// `from`, not before `limit` when there is one.
    pub fn find_reverse(&self, pattern: &[u8], from: u64, limit: Option<u64>) -> (r: Option<u64>)
        ensures
            match r {
                Some(p) => {
                    &&& p + pattern@.len() <= from
                    &&& (limit matches Some(l) ==> l <= p)
                    &&& occurs_at(self@, pattern@, p as int)
                    &&& forall|q: int|
                        p < q && q + pattern@.len() <= from ==> !occurs_at(self@, pattern@, q)
                },
                None => forall|q: int|
                    q + pattern@.len() <= from && (limit matches Some(l) ==> l <= q) ==> !occurs_at(
                        self@,
                        pattern@,
                        q,
                    ),
            },
    {
        let size = self.data.len();
        let plen = pattern.len();
        let top: u64 = if from < size as u64 {
            from
        } else {
            size as u64
        };
        if (plen as u64) > top {
            proof {
                assert forall|q: int|
                    q + pattern@.len() <= from && (limit matches Some(l) ==> l <= q) implies !occurs_at(
                    self@,
                    pattern@,
                    q,
                ) by {}
            }
            return None;
        }
        let low: u64 = match limit {
            Some(l) => l,
            None => 0,
        };
        if top - (plen as u64) < low {
            return None;
        }
        let mut p: u64 = top - plen as u64;
        loop
            invariant
                low <= p <= top - plen,
                top <= size,
                top <= from,
                top == from || top == size,
                size == self@.len(),
                plen == pattern@.len(),
                plen <= top,
                limit matches Some(l) ==> low == l,
                limit is None ==> low == 0,
                forall|q: int| p < q && q + plen <= from ==> !occurs_at(self@, pattern@, q),
            decreases p,
        {
            if self.matches_at(pattern, p as usize) {
                return Some(p);
            }
            if p == low {
                return None;
            }
            p = p - 1;
        }
    }
}

} // verus!
