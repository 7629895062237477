//! What flows through the layout pipeline: each content filter turns a list
//! of `FilterIo` into another, the last one fills the screen.

use vstd::prelude::*;

use super::Id;
use crate::codepointinfo::TextStyle;
use crate::screen::screen::Screen;

verus! {

/// Which part of the screen a layout pass builds.
#[derive(Debug, Clone, Copy, Eq, PartialEq, Structural)]
pub enum LayoutPass {
    ScreenContent,
    ScreenOverlay,
    ScreenContentAndOverlay,
}

/// What the filters of one layout pass share: the screen being filled and
/// the document range it covers.
pub struct LayoutEnv {
    pub graphic_display: bool,
    pub quit: bool,
    pub base_offset: u64,
    pub max_offset: u64,
    pub screen: Screen,
    pub active_view_id: Id,
    pub current_view_id: Id,
}

/// A decoded code point and the number of document bytes it was read from.
#[derive(Debug, Clone, Copy, PartialEq, Eq, Structural)]
pub struct Unicode {
    pub size: u32,
    pub cp: u32,
}

/// The payload of a pipeline element.
#[derive(Debug, Clone, PartialEq, Eq)]
pub enum FilterData {
    EndOfStream,
    CustomLimitReached,
    ByteArray { vec: Vec<u8> },
    UnicodeArray { vec: Vec<Unicode> },
    TextInfo { real_cp: u32, displayed_cp: u32 },
}

/// The mathematical value of a `FilterData`: the arrays by their contents.
pub enum FilterDataModel {
    EndOfStream,
    CustomLimitReached,
    ByteArray(Seq<u8>),
    UnicodeArray(Seq<Unicode>),
    TextInfo { real_cp: u32, displayed_cp: u32 },
}

/// The mathematical value of a `FilterIo`.
pub struct FilterIoModel {
    pub metadata: bool,
    pub style: TextStyle,
    pub offset: Option<u64>,
    pub size: usize,
    pub data: FilterDataModel,
}

/// One element of the layout pipeline.
///
/// A `TextInfo` element either stands for `size` bytes of the document, or
/// is `metadata` produced by a filter, with no size.
#[derive(Debug, Clone, PartialEq, Eq)]
pub struct FilterIo {
    pub metadata: bool,
    pub style: TextStyle,
    pub offset: Option<u64>,
    pub size: usize,
    pub data: FilterData,
}

impl View for FilterData {
    type V = FilterDataModel;

    open spec fn view(&self) -> FilterDataModel {
        match self {
            FilterData::EndOfStream => FilterDataModel::EndOfStream,
            FilterData::CustomLimitReached => FilterDataModel::CustomLimitReached,
            FilterData::ByteArray { vec } => FilterDataModel::ByteArray(vec@),
            FilterData::UnicodeArray { vec } => FilterDataModel::UnicodeArray(vec@),
            FilterData::TextInfo { real_cp, displayed_cp } => FilterDataModel::TextInfo {
                real_cp: *real_cp,
                displayed_cp: *displayed_cp,
            },
        }
    }
}

impl View for FilterIo {
    type V = FilterIoModel;

    open spec fn view(&self) -> FilterIoModel {
        FilterIoModel {
            metadata: self.metadata,
            style: self.style,
            offset: self.offset,
            size: self.size,
            data: self.data@,
        }
    }
}

impl DeepView for FilterIo {
    type V = FilterIoModel;

    open spec fn deep_view(&self) -> FilterIoModel {
        self@
    }
}

/// The models of a list of pipeline elements.
pub open spec fn ios(s: Seq<FilterIo>) -> Seq<FilterIoModel> {
    s.map_values(|io: FilterIo| io@)
}

impl FilterIoModel {
    /// A text element stands for document bytes exactly when it is not
    /// metadata.
    pub open spec fn size_matches_metadata(self) -> bool {
        self.data is TextInfo ==> (self.size > 0 <==> !self.metadata)
    }

    /// This element with `disp` as the displayed code point, when it is text.
    pub open spec fn with_displayed(self, disp: u32) -> FilterIoModel {
        match self.data {
            FilterDataModel::TextInfo { real_cp, .. } => FilterIoModel {
                data: FilterDataModel::TextInfo { real_cp, displayed_cp: disp },
                ..self
            },
            _ => self,
        }
    }

    /// The text element standing for `real_cp`, displayed as `displayed_cp`.
    pub open spec fn text(
        metadata: bool,
        style: TextStyle,
        offset: Option<u64>,
        size: usize,
        real_cp: u32,
        displayed_cp: u32,
    ) -> FilterIoModel {
        FilterIoModel {
            metadata,
            style,
            offset,
            size,
            data: FilterDataModel::TextInfo { real_cp, displayed_cp },
        }
    }
}

impl FilterData {
    /// A copy of this payload, arrays included.
    pub fn duplicate(&self) -> (r: FilterData)
        ensures
            r@ == self@,
    {
        match self {
            FilterData::EndOfStream => FilterData::EndOfStream,
            FilterData::CustomLimitReached => FilterData::CustomLimitReached,
            FilterData::ByteArray { vec } => {
                let v = vec.clone();
                assert(v@ =~= vec@);
                FilterData::ByteArray { vec: v }
            },
            FilterData::UnicodeArray { vec } => {
                let v = vec.clone();
                assert(v@ =~= vec@);
                FilterData::UnicodeArray { vec: v }
            },
            FilterData::TextInfo { real_cp, displayed_cp } => FilterData::TextInfo {
                real_cp: *real_cp,
                displayed_cp: *displayed_cp,
            },
        }
    }
}

impl FilterIo {
    /// A copy of this element.
    pub fn duplicate(&self) -> (r: FilterIo)
        ensures
            r@ == self@,
    {
        FilterIo {
            metadata: self.metadata,
            style: self.style,
            offset: self.offset,
            size: self.size,
            data: self.data.duplicate(),
        }
    }

    /// A copy of `io` that displays `disp_cp`: unchanged when `io` is not
    /// text.
    pub fn replace_displayed_codepoint(io: &FilterIo, disp_cp: char) -> (r: FilterIo)
        ensures
            r@ == io@.with_displayed(disp_cp as u32),
    {
        if let FilterData::TextInfo { real_cp, .. } = &io.data {
            return FilterIo {
                metadata: io.metadata,
                style: io.style,
                offset: io.offset,
                size: io.size,
                data: FilterData::TextInfo { real_cp: *real_cp, displayed_cp: disp_cp as u32 },
            };
        }
        io.duplicate()
    }

    /// A text element stands for document bytes exactly when it is not
    /// metadata: the layout relies on it.
    pub fn check_invariants(&self)
        requires
            self@.size_matches_metadata(),
    {
    }
}

} // verus!
