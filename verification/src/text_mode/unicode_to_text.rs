//! Turns arrays of decoded code points into one text element each, at the
//! document offsets their sizes give.

use vstd::prelude::*;

use crate::codepointinfo::TextStyle;
use crate::view::layout::{ios, FilterData, FilterDataModel, FilterIo, FilterIoModel, LayoutEnv, Unicode};

verus! {

/// The number of document bytes the code points of `v` were read from.
pub open spec fn sizes(v: Seq<Unicode>) -> int
    decreases v.len(),
{
    if v.len() == 0 {
        0
    } else {
        sizes(v.drop_last()) + v.last().size
    }
}

/// The text elements for the code points `v`, the first one at `offset`.
pub open spec fn unicode_texts(offset: int, v: Seq<Unicode>) -> Seq<FilterIoModel>
    decreases v.len(),
{
    if v.len() == 0 {
        seq![]
    } else {
        let u = v.last();
        unicode_texts(offset, v.drop_last()).push(
            FilterIoModel::text(
                false,
                TextStyle::spec_new(),
                Some((offset + sizes(v.drop_last())) as u64),
                u.size as usize,
                u.cp,
                u.cp,
            ),
        )
    }
}

/// The filter accepts arrays of code points and the end markers.
pub open spec fn accepted(io: FilterIoModel) -> bool {
    io.data is UnicodeArray || io.data is EndOfStream || io.data is CustomLimitReached
}

/// One element through the filter at `offset`: the next offset and what it
/// gives.
pub open spec fn unicode_step(offset: int, io: FilterIoModel) -> (int, Seq<FilterIoModel>) {
    match io.data {
        FilterDataModel::UnicodeArray(v) => (offset + sizes(v), unicode_texts(offset, v)),
        _ => (offset, seq![io]),
    }
}

/// The elements `s` through the filter, element by element.
pub open spec fn unicode_run(offset: int, s: Seq<FilterIoModel>) -> (int, Seq<FilterIoModel>)
    decreases s.len(),
{
    if s.len() == 0 {
        (offset, seq![])
    } else {
        let r = unicode_run(offset, s.drop_last());
        let t = unicode_step(r.0, s.last());
        (t.0, r.1 + t.1)
    }
}

proof fn lemma_sizes_prefix(v: Seq<Unicode>, j: int)
    requires
        0 <= j <= v.len(),
    ensures
        0 <= sizes(v.take(j)) <= sizes(v),
    decreases v.len(),
{
    if v.len() > 0 {
        if j == v.len() {
            assert(v.take(j) =~= v);
            lemma_sizes_prefix(v.drop_last(), j - 1);
            assert(v.drop_last().take(j - 1) =~= v.drop_last());
        } else {
            lemma_sizes_prefix(v.drop_last(), j);
            assert(v.drop_last().take(j) =~= v.take(j));
        }
    }
}

proof fn lemma_unicode_run_prefix(offset: int, s: Seq<FilterIoModel>, i: int)
    requires
        0 <= i <= s.len(),
        offset >= 0,
    ensures
        offset <= unicode_run(offset, s.take(i)).0 <= unicode_run(offset, s).0,
    decreases s.len(),
{
    if s.len() > 0 {
        let r = unicode_run(offset, s.drop_last());
        if let FilterDataModel::UnicodeArray(v) = s.last().data {
            lemma_sizes_prefix(v, v.len() as int);
            assert(v.take(v.len() as int) =~= v);
        }
        if i == s.len() {
            assert(s.take(i) =~= s);
            lemma_unicode_run_prefix(offset, s.drop_last(), i - 1);
        } else {
            lemma_unicode_run_prefix(offset, s.drop_last(), i);
            assert(s.drop_last().take(i) =~= s.take(i));
        }
    }
}

/// The text element of the `k`-th code point of an array starts after the
/// bytes of the code points before it; so each element starts where the
/// previous one ends.
pub proof fn lemma_unicode_texts_offsets(offset: int, v: Seq<Unicode>, k: int)
    requires
        0 <= k < v.len(),
        offset >= 0,
        offset + sizes(v) <= u64::MAX,
    ensures
        unicode_texts(offset, v).len() == v.len(),
        unicode_texts(offset, v)[k].offset == Some((offset + sizes(v.take(k))) as u64),
        unicode_texts(offset, v)[k].size == v[k].size,
        k + 1 < v.len() ==> unicode_texts(offset, v)[k + 1].offset->0 == unicode_texts(
            offset,
            v,
        )[k].offset->0 + v[k].size,
    decreases v.len(),
{
    lemma_sizes_prefix(v, k);
    lemma_sizes_prefix(v, v.len() - 1);
    assert(v.take(v.len() - 1) =~= v.drop_last());
    if k < v.len() - 1 {
        lemma_sizes_prefix(v.drop_last(), k);
        assert(v.drop_last().take(k) =~= v.take(k));
        lemma_unicode_texts_offsets(offset, v.drop_last(), k);
        if k + 1 < v.len() - 1 {
            assert(v.drop_last().take(k + 1) =~= v.take(k + 1));
        } else {
            assert(v.take(k + 1) =~= v.drop_last());
        }
        assert(v.take(k + 1).drop_last() =~= v.take(k));
        lemma_sizes_prefix(v, k + 1);
    } else {
        assert(v.take(k) =~= v.drop_last());
        lemma_unicode_texts_length(offset, v.drop_last());
    }
    lemma_unicode_texts_length(offset, v);
}

proof fn lemma_unicode_texts_length(offset: int, v: Seq<Unicode>)
    ensures
        unicode_texts(offset, v).len() == v.len(),
    decreases v.len(),
{
    if v.len() > 0 {
        lemma_unicode_texts_length(offset, v.drop_last());
    }
}

pub struct UnicodeToTextFilter {
    cur_offset: u64,
}

impl UnicodeToTextFilter {
    /// The document offset of the next code point.
    pub closed spec fn offset(&self) -> u64 {
        self.cur_offset
    }

    pub fn new() -> (f: UnicodeToTextFilter)
        ensures
            f.offset() == 0,
    {
        UnicodeToTextFilter { cur_offset: 0 }
    }

    /// Starts a layout pass at the first offset of the view.
    pub fn setup(&mut self, env: &LayoutEnv)
        ensures
            final(self).offset() == env.base_offset,
    {
        self.cur_offset = env.base_offset;
    }

    /// Appends to `filter_out` one text element per code point of the
    /// arrays of `filter_in`, at consecutive offsets; end markers go
    /// through unchanged.
    pub fn run(&mut self, filter_in: &[FilterIo], filter_out: &mut Vec<FilterIo>)
        requires
            forall|k: int| 0 <= k < filter_in@.len() ==> accepted(#[trigger] filter_in@[k]@),
            unicode_run(old(self).offset() as int, ios(filter_in@)).0 <= u64::MAX,
        ensures
            ({
                let r = unicode_run(old(self).offset() as int, ios(filter_in@));
                &&& final(self).offset() == r.0
                &&& ios(final(filter_out)@) == ios(old(filter_out)@) + r.1
            }),
    {
        let ghost c0 = self.cur_offset as int;
        let ghost input = ios(filter_in@);
        let ghost out0 = ios(filter_out@);
        let n = filter_in.len();
        let mut i: usize = 0;
        while i < n
            invariant
                n == filter_in@.len(),
                input == ios(filter_in@),
                0 <= i <= n,
                c0 >= 0,
                unicode_run(c0, input).0 <= u64::MAX,
                forall|k: int| 0 <= k < filter_in@.len() ==> accepted(#[trigger] filter_in@[k]@),
                ({
                    let r = unicode_run(c0, input.take(i as int));
                    &&& self.cur_offset == r.0
                    &&& ios(filter_out@) == out0 + r.1
                }),
            decreases n - i,
        {
            proof {
                assert(input.take(i + 1).drop_last() =~= input.take(i as int));
                assert(input.take(i + 1).last() == filter_in@[i as int]@);
                lemma_unicode_run_prefix(c0, input, i + 1);
            }
            let ghost before = ios(filter_out@);
            let io = &filter_in[i];
            assert(accepted(filter_in@[i as int]@));
            match &io.data {
                FilterData::UnicodeArray { vec } => {
                    let ghost start = self.cur_offset as int;
                    let m = vec.len();
                    let mut j: usize = 0;
                    while j < m
                        invariant
                            m == vec@.len(),
                            0 <= j <= m,
                            start >= 0,
                            start + sizes(vec@) <= u64::MAX,
                            self.cur_offset == start + sizes(vec@.take(j as int)),
                            ios(filter_out@) == before + unicode_texts(start, vec@.take(j as int)),
                        decreases m - j,
                    {
                        proof {
                            assert(vec@.take(j + 1).drop_last() =~= vec@.take(j as int));
                            lemma_sizes_prefix(vec@, j + 1);
                        }
                        let e = vec[j];
                        let new_io = FilterIo {
                            metadata: false,
                            style: TextStyle::new(),
                            offset: Some(self.cur_offset),
                            size: e.size as usize,
                            data: FilterData::TextInfo { real_cp: e.cp, displayed_cp: e.cp },
                        };
                        let ghost prev = filter_out@;
                        let ghost nm = new_io@;
                        filter_out.push(new_io);
                        proof {
                            assert(ios(filter_out@) =~= ios(prev).push(nm));
                        }
                        self.cur_offset = self.cur_offset + e.size as u64;
                        j = j + 1;
                    }
                    proof {
                        assert(vec@.take(m as int) =~= vec@);
                    }
                },
                _ => {
                    let ghost nm = io@;
                    let ghost prev = filter_out@;
                    filter_out.push(io.duplicate());
                    assert(ios(filter_out@) =~= ios(prev).push(nm));
                },
            }
            i = i + 1;
        }
        assert(input.take(n as int) =~= input);
    }
}

} // verus!
