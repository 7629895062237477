//! Paints the background of the blanks that end a line.

use vstd::prelude::*;

use crate::codec::scalar_char;
use crate::codec::u32_to_char;
use crate::codepointinfo::TextStyle;
use crate::view::layout::{ios, FilterData, FilterDataModel, FilterIo, FilterIoModel};

verus! {

/// `s` with its background painted `color`.
pub open spec fn paint(s: Seq<FilterIoModel>, color: (u8, u8, u8)) -> Seq<FilterIoModel> {
    s.map_values(|io: FilterIoModel| FilterIoModel { style: TextStyle { bg_color: color, ..io.style }, ..io })
}

/// One element through the filter, with the blanks `acc` held back: the
/// blanks held back after it and what it gives.
///
/// A blank is held back until the next code point: a line end or the end of
/// the stream shows them painted, anything else shows them as they are.
pub open spec fn trailing_step(acc: Seq<FilterIoModel>, color: (u8, u8, u8), io: FilterIoModel) -> (
    Seq<FilterIoModel>,
    Seq<FilterIoModel>,
) {
    match io.data {
        FilterDataModel::EndOfStream | FilterDataModel::CustomLimitReached => (
            seq![],
            paint(acc, color).push(io),
        ),
        FilterDataModel::TextInfo { real_cp, .. } => {
            let c = scalar_char(real_cp);
            if c == '\n' {
                (seq![], paint(acc, color).push(io))
            } else if c == ' ' {
                (acc.push(io), seq![])
            } else {
                (seq![], acc.push(io))
            }
        },
        _ => (seq![], acc.push(io)),
    }
}

/// The elements `s` through the filter, element by element.
pub open spec fn trailing_run(acc: Seq<FilterIoModel>, color: (u8, u8, u8), s: Seq<FilterIoModel>) -> (
    Seq<FilterIoModel>,
    Seq<FilterIoModel>,
)
    decreases s.len(),
{
    if s.len() == 0 {
        (acc, seq![])
    } else {
        let r = trailing_run(acc, color, s.drop_last());
        let t = trailing_step(r.0, color, s.last());
        (t.0, r.1 + t.1)
    }
}

/// `io` with its background set aside.
pub open spec fn unpainted(io: FilterIoModel) -> FilterIoModel {
    FilterIoModel { style: TextStyle { bg_color: (0u8, 0u8, 0u8), ..io.style }, ..io }
}

/// The elements `s` with their backgrounds set aside.
pub open spec fn unpaint(s: Seq<FilterIoModel>) -> Seq<FilterIoModel> {
    s.map_values(|io: FilterIoModel| unpainted(io))
}

proof fn lemma_unpaint_concat(a: Seq<FilterIoModel>, b: Seq<FilterIoModel>)
    ensures
        unpaint(a + b) == unpaint(a) + unpaint(b),
{
    assert(unpaint(a + b) =~= unpaint(a) + unpaint(b));
}

/// The filter only repaints backgrounds: what it sends, followed by the
/// blanks it holds back, is what it held back, followed by what it was
/// given, backgrounds aside. Nothing is lost, added or reordered.
pub proof fn lemma_trailing_only_repaints(acc: Seq<FilterIoModel>, color: (u8, u8, u8), s: Seq<FilterIoModel>)
    ensures
        ({
            let r = trailing_run(acc, color, s);
            unpaint(r.1 + r.0) == unpaint(acc + s)
        }),
    decreases s.len(),
{
    if s.len() == 0 {
        assert(acc + s =~= acc);
        assert(Seq::<FilterIoModel>::empty() + acc =~= acc);
    } else {
        let r = trailing_run(acc, color, s.drop_last());
        lemma_trailing_only_repaints(acc, color, s.drop_last());
        let x = s.last();
        let t = trailing_step(r.0, color, x);
        assert(unpaint(paint(r.0, color)) =~= unpaint(r.0));
        assert(unpaint(t.1 + t.0) =~= unpaint(r.0.push(x)));
        lemma_unpaint_concat(r.1, t.1 + t.0);
        assert(r.1 + t.1 + t.0 =~= r.1 + (t.1 + t.0));
        lemma_unpaint_concat(r.1, r.0.push(x));
        assert(r.1 + r.0.push(x) =~= (r.1 + r.0) + seq![x]);
        lemma_unpaint_concat(r.1 + r.0, seq![x]);
        assert(acc + s =~= (acc + s.drop_last()) + seq![x]);
        lemma_unpaint_concat(acc + s.drop_last(), seq![x]);
    }
}

pub struct ShowTrailingSpaces {
    accum: Vec<FilterIo>,
    trailing_color: (u8, u8, u8),
}

impl ShowTrailingSpaces {
    /// The blanks held back.
    pub closed spec fn held(&self) -> Seq<FilterIoModel> {
        ios(self.accum@)
    }

    pub closed spec fn color(&self) -> (u8, u8, u8) {
        self.trailing_color
    }

    pub fn new() -> (f: ShowTrailingSpaces)
        ensures
            f.held() == Seq::<FilterIoModel>::empty(),
            f.color() == (255u8, 0u8, 0u8),
    {
        let f = ShowTrailingSpaces { accum: vec![], trailing_color: (255, 0, 0) };
        assert(f.held() =~= Seq::<FilterIoModel>::empty());
        f
    }

    /// Forgets the blanks held back.
    pub fn setup(&mut self)
        ensures
            final(self).held() == Seq::<FilterIoModel>::empty(),
            final(self).color() == old(self).color(),
    {
        self.accum.clear();
        assert(self.held() =~= Seq::<FilterIoModel>::empty());
    }

    /// Paints the blanks held back.
    pub fn colorize_accum(&mut self)
        ensures
            final(self).held() == paint(old(self).held(), old(self).color()),
            final(self).color() == old(self).color(),
    {
        let n = self.accum.len();
        let ghost a0 = self.accum@;
        let ghost color = self.trailing_color;
        let mut i: usize = 0;
        while i < n
            invariant
                self.trailing_color == color,
                n == self.accum@.len(),
                n == a0.len(),
                0 <= i <= n,
                forall|k: int| 0 <= k < i ==> (#[trigger] self.accum@[k])@ == (FilterIoModel {
                    style: TextStyle { bg_color: self.trailing_color, ..a0[k]@.style },
                    ..a0[k]@
                }),
                forall|k: int| i <= k < n ==> (#[trigger] self.accum@[k])@ == a0[k]@,
            decreases n - i,
        {
            let mut io = self.accum[i].duplicate();
            io.style.bg_color = self.trailing_color;
            self.accum.set(i, io);
            i = i + 1;
        }
        assert(self.held() =~= paint(ios(a0), self.trailing_color));
    }

    /// Appends the blanks held back, then `io`, to `filter_out`.
    pub fn flush_io(&mut self, filter_out: &mut Vec<FilterIo>, io: FilterIo)
        ensures
            final(self).held() == Seq::<FilterIoModel>::empty(),
            final(self).color() == old(self).color(),
            ios(final(filter_out)@) == ios(old(filter_out)@) + old(self).held().push(io@),
    {
        let ghost out0 = filter_out@;
        let ghost a0 = self.accum@;
        filter_out.append(&mut self.accum);
        let ghost mid = filter_out@;
        filter_out.push(io);
        assert(ios(filter_out@) =~= ios(out0) + ios(a0).push(io@)) by {
            assert(mid =~= out0 + a0);
        }
        assert(self.held() =~= Seq::<FilterIoModel>::empty());
    }

    /// Appends the elements of `filter_in` to `filter_out`, the blanks that
    /// end a line painted.
    pub fn run(&mut self, filter_in: &[FilterIo], filter_out: &mut Vec<FilterIo>)
        ensures
            ({
                let r = trailing_run(old(self).held(), old(self).color(), ios(filter_in@));
                &&& final(self).held() == r.0
                &&& final(self).color() == old(self).color()
                &&& ios(final(filter_out)@) == ios(old(filter_out)@) + r.1
            }),
    {
        let ghost acc0 = self.held();
        let ghost color = self.trailing_color;
        let ghost input = ios(filter_in@);
        let ghost out0 = ios(filter_out@);
        let n = filter_in.len();
        let mut i: usize = 0;
        while i < n
            invariant
                n == filter_in@.len(),
                input == ios(filter_in@),
                0 <= i <= n,
                self.trailing_color == color,
                ({
                    let r = trailing_run(acc0, color, input.take(i as int));
                    &&& self.held() == r.0
                    &&& ios(filter_out@) == out0 + r.1
                }),
            decreases n - i,
        {
            proof {
                assert(input.take(i + 1).drop_last() =~= input.take(i as int));
                assert(input.take(i + 1).last() == filter_in@[i as int]@);
            }
            let ghost before = ios(filter_out@);
            let io = &filter_in[i];
            match &io.data {
                FilterData::EndOfStream | FilterData::CustomLimitReached => {
                    self.colorize_accum();
                    self.flush_io(filter_out, io.duplicate());
                },
                FilterData::TextInfo { real_cp, .. } => {
                    let c = u32_to_char(*real_cp);
                    if c == '\n' {
                        self.colorize_accum();
                        self.flush_io(filter_out, io.duplicate());
                    } else if c == ' ' {
                        let ghost h = self.held();
                        self.accum.push(io.duplicate());
                        assert(self.held() =~= h.push(io@));
                        assert(ios(filter_out@) =~= before + Seq::<FilterIoModel>::empty());
                    } else {
                        self.flush_io(filter_out, io.duplicate());
                    }
                },
                _ => {
                    self.flush_io(filter_out, io.duplicate());
                },
            }
            i = i + 1;
        }
        assert(input.take(n as int) =~= input);
    }
}

} // verus!
