//! Shows the invisible control characters: each one is displayed as the
//! text the character map gives for it, in the color the color map gives.

use std::collections::HashMap;

use vstd::prelude::*;
use vstd::string::StrSliceExecFns;

use super::text_mode::TextModeContext;
use crate::codec::scalar_char;
use crate::codec::TextCodec;
use crate::codec::u32_to_char;
use crate::codepointinfo::TextStyle;
use crate::view::layout::{ios, FilterData, FilterDataModel, FilterIo, FilterIoModel};

verus! {

broadcast use vstd::std_specs::hash::group_hash_axioms;

/// The code points the filter rewrites: the ASCII control characters but
/// the tabulation and the line feed, DEL and U+0080.
pub open spec fn is_invisible(real_cp: u32) -> bool {
    real_cp < 0x9 || (0xb <= real_cp <= 0x1f) || real_cp == 0x7f || real_cp == 0x80
}

/// The models of an optional map.
pub open spec fn map_model<V>(m: Option<HashMap<u32, V>>) -> Option<Map<u32, V>> {
    match m {
        Some(m) => Some(m@),
        None => None,
    }
}

/// The elements that show `real_cp`, displayed as `displayed_cp`.
///
/// The color map gives the foreground color (`color` when it has none for
/// `real_cp`). When the code point is displayed as itself and the character
/// map has a text for it, each character of that text is shown, the first
/// one standing for the document bytes, the others as metadata.
pub open spec fn transformed(
    char_map: Option<Map<u32, String>>,
    color_map: Option<Map<u32, (u8, u8, u8)>>,
    real_cp: char,
    displayed_cp: char,
    offset: Option<u64>,
    size: usize,
    is_selected: bool,
    color: (u8, u8, u8),
    bg_color: (u8, u8, u8),
    metadata: bool,
) -> Seq<FilterIoModel> {
    let key = real_cp as u32;
    let fg = match color_map {
        Some(m) => if m.contains_key(key) {
            m[key]
        } else {
            color
        },
        None => color,
    };
    let style = TextStyle { is_selected, is_inverse: false, is_bold: false, color: fg, bg_color };
    let single = seq![FilterIoModel::text(metadata, style, offset, size, key, displayed_cp as u32)];
    match char_map {
        Some(m) => if real_cp == displayed_cp && m.contains_key(key) {
            let s = m[key]@;
            Seq::new(
                s.len(),
                |k: int|
                    FilterIoModel::text(
                        if k == 0 {
                            metadata
                        } else {
                            true
                        },
                        style,
                        offset,
                        if k == 0 {
                            size
                        } else {
                            0
                        },
                        key,
                        s[k] as u32,
                    ),
            )
        } else {
            single
        },
        None => single,
    }
}

/// The elements that show `real_cp`, displayed as `displayed_cp`, with the
/// given maps and style (see `transformed`).
pub fn transform_io_data(
    char_map: Option<&HashMap<u32, String>>,
    color_map: Option<&HashMap<u32, (u8, u8, u8)>>,
    real_cp: char,
    displayed_cp: char,
    offset: Option<u64>,
    size: usize,
    is_selected: bool,
    color: (u8, u8, u8),
    bg_color: (u8, u8, u8),
    metadata: bool,
) -> (r: Vec<FilterIo>)
    requires
        metadata <==> size == 0,
    ensures
        ios(r@) == transformed(
            match char_map {
                Some(m) => Some(m@),
                None => None,
            },
            match color_map {
                Some(m) => Some(m@),
                None => None,
            },
            real_cp,
            displayed_cp,
            offset,
            size,
            is_selected,
            color,
            bg_color,
            metadata,
        ),
{
    let mut cp_vec: Vec<FilterIo> = Vec::new();
    let key = real_cp as u32;
    let mut fg_color = color;
    if let Some(color_map) = color_map {
        fg_color = match color_map.get(&key) {
            Some(c) => *c,
            None => color,
        };
    }
    let mut style = TextStyle::new();
    style.is_selected = is_selected;
    style.is_inverse = false;
    style.color = fg_color;
    style.bg_color = bg_color;
    let single = FilterIo {
        metadata,
        style,
        offset,
        size,
        data: FilterData::TextInfo { real_cp: key, displayed_cp: displayed_cp as u32 },
    };
    let char_map = match char_map {
        Some(m) => m,
        None => {
            cp_vec.push(single);
            assert(ios(cp_vec@) =~= seq![single@]);
            return cp_vec;
        },
    };
    if real_cp != displayed_cp {
        cp_vec.push(single);
        assert(ios(cp_vec@) =~= seq![single@]);
        return cp_vec;
    }
    let s = match char_map.get(&key) {
        Some(s) => s,
        None => {
            cp_vec.push(single);
            assert(ios(cp_vec@) =~= seq![single@]);
            return cp_vec;
        },
    };
    let ghost expected = transformed(
        Some(char_map@),
        map_model(match color_map {
            Some(m) => Some(*m),
            None => None,
        }),
        real_cp,
        displayed_cp,
        offset,
        size,
        is_selected,
        color,
        bg_color,
        metadata,
    );
    let text = s.as_str();
    let n = text.unicode_len();
    let mut idx: usize = 0;
    while idx < n
        invariant
            n == text@.len(),
            text@ == s@,
            0 <= idx <= n,
            style.is_selected == is_selected,
            !style.is_inverse,
            !style.is_bold,
            style.bg_color == bg_color,
            cp_vec@.len() == idx,
            forall|k: int|
                0 <= k < idx ==> (#[trigger] cp_vec@[k])@ == FilterIoModel::text(
                    if k == 0 {
                        metadata
                    } else {
                        true
                    },
                    style,
                    offset,
                    if k == 0 {
                        size
                    } else {
                        0
                    },
                    key,
                    s@[k] as u32,
                ),
        decreases n - idx,
    {
        let c = text.get_char(idx);
        let (sz, meta) = if idx == 0 {
            (size, metadata)
        } else {
            (0, true)
        };
        cp_vec.push(
            FilterIo {
                metadata: meta,
                style,
                offset,
                size: sz,
                data: FilterData::TextInfo { real_cp: key, displayed_cp: c as u32 },
            },
        );
        idx = idx + 1;
    }
    assert(ios(cp_vec@) =~= expected);
    cp_vec
}

/// One element through the filter with the given maps.
pub open spec fn char_map_step(
    char_map: Option<Map<u32, String>>,
    color_map: Option<Map<u32, (u8, u8, u8)>>,
    io: FilterIoModel,
) -> Seq<FilterIoModel> {
    match io.data {
        FilterDataModel::TextInfo { real_cp, displayed_cp } => if is_invisible(real_cp) {
            transformed(
                char_map,
                color_map,
                scalar_char(real_cp),
                scalar_char(displayed_cp),
                io.offset,
                io.size,
                io.style.is_selected,
                io.style.color,
                io.style.bg_color,
                io.metadata,
            )
        } else {
            seq![io]
        },
        _ => seq![io],
    }
}

/// The elements `s` through the filter, element by element.
pub open spec fn char_map_run(
    char_map: Option<Map<u32, String>>,
    color_map: Option<Map<u32, (u8, u8, u8)>>,
    s: Seq<FilterIoModel>,
) -> Seq<FilterIoModel>
    decreases s.len(),
{
    if s.len() == 0 {
        seq![]
    } else {
        char_map_run(char_map, color_map, s.drop_last()) + char_map_step(
            char_map,
            color_map,
            s.last(),
        )
    }
}

pub struct CharMapFilter {
    char_map: Option<HashMap<u32, String>>,
    color_map: Option<HashMap<u32, (u8, u8, u8)>>,
}

impl CharMapFilter {
    /// The texts that replace the invisible code points.
    pub closed spec fn chars(&self) -> Option<Map<u32, String>> {
        map_model(self.char_map)
    }

    /// The colors of the invisible code points.
    pub closed spec fn colors(&self) -> Option<Map<u32, (u8, u8, u8)>> {
        map_model(self.color_map)
    }

    pub fn new() -> (f: CharMapFilter)
        ensures
            f.chars() is None,
            f.colors() is None,
    {
        CharMapFilter { char_map: None, color_map: None }
    }

    /// Takes a copy of the maps of the text mode of the view.
    pub fn setup<C: TextCodec>(&mut self, tm: &TextModeContext<C>)
        ensures
            final(self).chars() == map_model(tm.char_map),
            final(self).colors() == map_model(tm.color_map),
    {
        self.char_map = match &tm.char_map {
            Some(m) => Some(m.clone()),
            None => None,
        };
        self.color_map = match &tm.color_map {
            Some(m) => Some(m.clone()),
            None => None,
        };
    }

    /// Appends to `filter_out` the elements of `filter_in`, each invisible
    /// code point replaced by the elements that show it.
    pub fn run(&mut self, filter_in: &[FilterIo], filter_out: &mut Vec<FilterIo>)
        requires
            forall|k: int|
                0 <= k < filter_in@.len() ==> {
                    let io = #[trigger] filter_in@[k]@;
                    io.data matches FilterDataModel::TextInfo { real_cp, .. } && is_invisible(
                        real_cp,
                    ) ==> io.size_matches_metadata()
                },
        ensures
            final(self).chars() == old(self).chars(),
            final(self).colors() == old(self).colors(),
            ios(final(filter_out)@) == ios(old(filter_out)@) + char_map_run(
                old(self).chars(),
                old(self).colors(),
                ios(filter_in@),
            ),
    {
        let ghost input = ios(filter_in@);
        let ghost out0 = ios(filter_out@);
        let n = filter_in.len();
        let mut i: usize = 0;
        while i < n
            invariant
                n == filter_in@.len(),
                input == ios(filter_in@),
                0 <= i <= n,
                self.chars() == old(self).chars(),
                self.colors() == old(self).colors(),
                forall|k: int|
                    0 <= k < filter_in@.len() ==> {
                        let io = #[trigger] filter_in@[k]@;
                        io.data matches FilterDataModel::TextInfo { real_cp, .. } && is_invisible(
                            real_cp,
                        ) ==> io.size_matches_metadata()
                    },
                ios(filter_out@) == out0 + char_map_run(
                    self.chars(),
                    self.colors(),
                    input.take(i as int),
                ),
            decreases n - i,
        {
            proof {
                assert(input.take(i + 1).drop_last() =~= input.take(i as int));
                assert(input.take(i + 1).last() == filter_in@[i as int]@);
            }
            let io = &filter_in[i];
            let ghost prev = filter_out@;
            let ghost im = io@;
            assert(im == filter_in@[i as int]@);
            match &io.data {
                FilterData::TextInfo { real_cp, displayed_cp } => {
                    let do_transform = *real_cp < 0x9 || (*real_cp >= 0xb && *real_cp <= 0x1f)
                        || *real_cp == 0x7f || *real_cp == 0x80;
                    if !do_transform {
                        filter_out.push(io.duplicate());
                        assert(ios(filter_out@) =~= ios(prev).push(im));
                    } else {
                        let v = transform_io_data(
                            self.char_map.as_ref(),
                            self.color_map.as_ref(),
                            u32_to_char(*real_cp),
                            u32_to_char(*displayed_cp),
                            io.offset,
                            io.size,
                            io.style.is_selected,
                            io.style.color,
                            io.style.bg_color,
                            io.metadata,
                        );
                        let m = v.len();
                        let mut j: usize = 0;
                        while j < m
                            invariant
                                m == v@.len(),
                                0 <= j <= m,
                                ios(filter_out@) == ios(prev) + ios(v@).take(j as int),
                            decreases m - j,
                        {
                            let ghost p = filter_out@;
                            filter_out.push(v[j].duplicate());
                            assert(ios(filter_out@) =~= ios(prev) + ios(v@).take(j + 1)) by {
                                assert(ios(filter_out@) =~= ios(p).push(v@[j as int]@));
                            }
                            j = j + 1;
                        }
                        assert(ios(v@).take(m as int) =~= ios(v@));
                    }
                },
                _ => {
                    filter_out.push(io.duplicate());
                    assert(ios(filter_out@) =~= ios(prev).push(im));
                },
            }
            i = i + 1;
        }
        assert(input.take(n as int) =~= input);
    }
}

} // verus!
