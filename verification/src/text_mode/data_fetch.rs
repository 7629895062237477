//! The first content filter: reads the document bytes the view shows.

use vstd::prelude::*;

use crate::buffer::Buffer;
use crate::codepointinfo::TextStyle;
use crate::view::layout::{ios, FilterData, FilterDataModel, FilterIo, FilterIoModel, LayoutEnv};

verus! {

/// The most bytes read at once when the layout runs to the end of the
/// document.
pub const BENCH_READ_SIZE: usize = 32768;

/// The state of the reader: the next offset to read, the offset the view
/// stops at, how much the next read asks for, up to how much it grows, and
/// the bytes read so far; `bench` reads on to the end of the document.
pub struct RawDataState {
    pub pos: u64,
    pub max_pos: u64,
    pub read_max: usize,
    pub read_size: usize,
    pub read_count: usize,
    pub bench: bool,
}

/// The reader once a read of `doc` from `s` happened on a screen `width`
/// cells wide, and the elements it gives.
///
/// Unless it runs to the end of the document, the read stops at `max_pos`.
/// The bytes read come as one array at the offset they were read from; the
/// end of the document then gives the end marker, and reaching `max_pos`
/// the limit marker. Each read asks for `width` more bytes than the last,
/// until `read_max`.
pub open spec fn raw_read(s: RawDataState, doc: Seq<u8>, width: usize) -> (RawDataState, Seq<FilterIoModel>) {
    let size = if !s.bench && s.pos + s.read_size > s.max_pos {
        if s.max_pos >= s.pos {
            (s.max_pos - s.pos) as usize
        } else {
            0usize
        }
    } else {
        s.read_size
    };
    let rd = if s.pos >= doc.len() {
        0
    } else if size < doc.len() - s.pos {
        size as int
    } else {
        doc.len() - s.pos
    };
    let pos = s.pos + rd;
    let data = if rd > 0 {
        seq![
            FilterIoModel {
                metadata: false,
                style: TextStyle::spec_new(),
                offset: Some(s.pos),
                size: rd as usize,
                data: FilterDataModel::ByteArray(doc.subrange(s.pos as int, pos)),
            },
        ]
    } else {
        seq![]
    };
    let eof = if pos == doc.len() {
        seq![
            FilterIoModel {
                metadata: true,
                style: TextStyle::spec_new(),
                offset: Some(pos as u64),
                size: 0,
                data: FilterDataModel::EndOfStream,
            },
        ]
    } else {
        seq![]
    };
    let limit = if !s.bench && pos >= s.max_pos {
        seq![
            FilterIoModel {
                metadata: true,
                style: TextStyle::spec_new(),
                offset: Some(pos as u64),
                size: 0,
                data: FilterDataModel::CustomLimitReached,
            },
        ]
    } else {
        seq![]
    };
    (
        RawDataState {
            pos: pos as u64,
            read_size: if size < s.read_max {
                (size + width) as usize
            } else {
                size
            },
            read_count: (s.read_count + rd) as usize,
            ..s
        },
        data + eof + limit,
    )
}

pub struct RawDataFilter {
    debug: bool,
    pos: u64,
    max_pos: u64,
    read_max: usize,
    read_size: usize,
    read_count: usize,
    bench: bool,
}

impl RawDataFilter {
    pub closed spec fn state(&self) -> RawDataState {
        RawDataState {
            pos: self.pos,
            max_pos: self.max_pos,
            read_max: self.read_max,
            read_size: self.read_size,
            read_count: self.read_count,
            bench: self.bench,
        }
    }

    pub fn new() -> (f: RawDataFilter)
        ensures
            f.state() == (RawDataState {
                pos: 0,
                max_pos: 0,
                read_max: 0,
                read_size: 0,
                read_count: 0,
                bench: false,
            }),
    {
        RawDataFilter {
            debug: false,
            pos: 0,
            max_pos: 0,
            read_max: 0,
            read_size: 0,
            read_count: 0,
            bench: false,
        }
    }

    /// Starts a layout pass on the range the view shows: reads of a screen
    /// line, growing up to four bytes per cell; when `bench` asks to run to
    /// the end of the document, reads of the whole rest at once, at most
    /// `BENCH_READ_SIZE` bytes.
    pub fn setup(&mut self, env: &LayoutEnv, bench: bool)
        requires
            env.screen.wf(),
            env.screen.spec_width() * env.screen.spec_height() * 4 <= usize::MAX,
            bench ==> env.base_offset <= env.max_offset,
        ensures
            final(self).state() == (RawDataState {
                pos: env.base_offset,
                max_pos: env.max_offset,
                read_max: if bench {
                    if env.max_offset - env.base_offset < BENCH_READ_SIZE {
                        (env.max_offset - env.base_offset) as usize
                    } else {
                        BENCH_READ_SIZE
                    }
                } else {
                    (env.screen.spec_width() * env.screen.spec_height() * 4) as usize
                },
                read_size: if bench {
                    if env.max_offset - env.base_offset < BENCH_READ_SIZE {
                        (env.max_offset - env.base_offset) as usize
                    } else {
                        BENCH_READ_SIZE
                    }
                } else {
                    env.screen.spec_width() as usize
                },
                read_count: 0,
                bench,
            }),
    {
        self.pos = env.base_offset;
        self.max_pos = env.max_offset;
        self.read_count = 0;
        let w = env.screen.width();
        let h = env.screen.height();
        assert(w * h * 4 <= usize::MAX);
        assert(w * h <= usize::MAX) by (nonlinear_arith)
            requires
                w * h * 4 <= usize::MAX,
        ;
        self.read_max = w * h * 4;
        self.read_size = w;
        self.bench = bench;
        if bench {
            let remaining = self.max_pos - self.pos;
            self.read_max = if remaining < BENCH_READ_SIZE as u64 {
                remaining as usize
            } else {
                BENCH_READ_SIZE
            };
            self.read_size = self.read_max;
        }
    }

    /// Reads the next bytes of `doc` and appends to `filter_out` what they
    /// give (see `raw_read`); the end of the document or of the view ends
    /// the layout pass.
    pub fn run(&mut self, env: &mut LayoutEnv, doc: Option<&Buffer>, filter_out: &mut Vec<FilterIo>)
        requires
            old(env).screen.wf(),
            old(self).state().pos + old(self).state().read_size <= u64::MAX,
            old(self).state().read_count + old(self).state().read_size <= usize::MAX,
            old(self).state().read_size + old(env).screen.spec_width() <= usize::MAX,
        ensures
            match doc {
                Some(d) => {
                    let r = raw_read(old(self).state(), d@, old(env).screen.spec_width() as usize);
                    &&& final(self).state() == r.0
                    &&& ios(final(filter_out)@) == ios(old(filter_out)@) + r.1
                    &&& final(env).quit == (old(env).quit || r.0.pos == d@.len() || (!r.0.bench
                        && r.0.pos >= r.0.max_pos))
                },
                None => {
                    &&& final(self).state() == old(self).state()
                    &&& final(filter_out)@ == old(filter_out)@
                    &&& final(env).quit == old(env).quit
                },
            },
            final(env).screen == old(env).screen,
            final(env).graphic_display == old(env).graphic_display,
            final(env).base_offset == old(env).base_offset,
            final(env).max_offset == old(env).max_offset,
    {
        let doc = match doc {
            Some(d) => d,
            None => {
                return ;
            },
        };
        let ghost s0 = self.state();
        let ghost out0 = ios(filter_out@);
        let ghost r = raw_read(s0, doc@, env.screen.spec_width() as usize);
        proof {
            doc.lemma_size_bound();
        }
        let mut raw_data: Vec<u8> = Vec::new();
        if !self.bench {
            if self.pos + self.read_size as u64 > self.max_pos {
                self.read_size = self.max_pos.saturating_sub(self.pos) as usize;
            }
        }
        let rd = doc.read(self.pos, self.read_size, &mut raw_data);
        assert(rd > 0 ==> raw_data@ =~= doc@.subrange(s0.pos as int, s0.pos + rd)) by {
            if rd > 0 {
                assert(Seq::<u8>::empty() + doc@.subrange(s0.pos as int, s0.pos + rd) =~= doc@.subrange(
                    s0.pos as int,
                    s0.pos + rd,
                ));
            }
        }
        if rd > 0 {
            let ghost prev = filter_out@;
            let io = FilterIo {
                metadata: false,
                style: TextStyle::new(),
                offset: Some(self.pos),
                size: rd,
                data: FilterData::ByteArray { vec: raw_data },
            };
            let ghost m = io@;
            filter_out.push(io);
            assert(ios(filter_out@) =~= ios(prev).push(m));
        }
        let ghost after_data = ios(filter_out@);
        self.pos = self.pos + rd as u64;
        self.read_count = self.read_count + rd;
        if self.pos == doc.size() as u64 {
            env.quit = true;
            let ghost prev = filter_out@;
            let io = FilterIo {
                metadata: true,
                style: TextStyle::new(),
                offset: Some(self.pos),
                size: 0,
                data: FilterData::EndOfStream,
            };
            let ghost m = io@;
            filter_out.push(io);
            assert(ios(filter_out@) =~= ios(prev).push(m));
        }
        let ghost after_eof = ios(filter_out@);
        if !self.bench {
            if self.pos >= self.max_pos {
                env.quit = true;
                let ghost prev = filter_out@;
                let io = FilterIo {
                    metadata: true,
                    style: TextStyle::new(),
                    offset: Some(self.pos),
                    size: 0,
                    data: FilterData::CustomLimitReached,
                };
                let ghost m = io@;
                filter_out.push(io);
                assert(ios(filter_out@) =~= ios(prev).push(m));
            }
        }
        if self.read_size < self.read_max {
            self.read_size = self.read_size + env.screen.width();
        }
        proof {
            assert(ios(filter_out@) =~= out0 + r.1);
        }
    }
}

} // verus!
