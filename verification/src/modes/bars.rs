//! The bars around the views: the status line, the editor title, the tab
//! labels, and the colors of the bars drawn as text.

use vstd::prelude::*;

use crate::codepointinfo::{CodepointInfo, TextStyle};
use crate::codec::Utf8Codec;
use crate::modes::line_number::{decimal_chars, decimal_string};
use crate::modes::open_doc::utf8_len;
use crate::text_mode::editing::encode_chars;
use crate::screen::line::LineCell;
use crate::screen::screen::Screen;
use crate::view::layout::LayoutEnv;

verus! {

/// A cell of a bar drawn in the colors `color` and `bg`.
pub open spec fn painted_cell(c: LineCell, color: (u8, u8, u8), bg: (u8, u8, u8)) -> LineCell {
    LineCell { cpi: CodepointInfo { style: TextStyle { color, bg_color: bg, ..c.cpi.style }, ..c.cpi }, ..c }
}

/// `s` is `o` once the used cells of the lines of its clipping rectangle
/// were drawn in the colors `color` and `bg`.
pub open spec fn painted(o: Screen, s: Screen, color: (u8, u8, u8), bg: (u8, u8, u8)) -> bool {
    &&& s.wf()
    &&& s.same_but_lines(o)
    &&& forall|r: int|
        0 <= r < o.max_height ==> {
            let a = #[trigger] s.line@[r];
            let b = o.line@[r];
            &&& a.same_layout(b)
            &&& a.cells@.len() == b.cells@.len()
            &&& forall|k: int|
                0 <= k < b.cells@.len() ==> #[trigger] a.cells@[k] == if o.clip.y <= r < o.clip.height
                    && b.start_index <= k < b.start_index + b.nb_cells {
                    painted_cell(b.cells@[k], color, bg)
                } else {
                    b.cells@[k]
                }
        }
}

/// Draws the used cells of the clipping rectangle in the colors `color`
/// and `bg`.
pub fn paint_used_cells(screen: &mut Screen, color: (u8, u8, u8), bg: (u8, u8, u8))
    requires
        old(screen).wf(),
    ensures
        painted(*old(screen), *final(screen), color, bg),
{
    let ghost o = *screen;
    let h = screen.height();
    let mut l: usize = 0;
    while l < h
        invariant
            h == o.spec_height(),
            o.wf(),
            0 <= l <= h,
            screen.wf(),
            screen.same_but_lines(o),
            forall|r: int|
                0 <= r < o.max_height ==> {
                    let a = #[trigger] screen.line@[r];
                    let b = o.line@[r];
                    &&& a.same_layout(b)
                    &&& a.cells@.len() == b.cells@.len()
                    &&& forall|k: int|
                        0 <= k < b.cells@.len() ==> #[trigger] a.cells@[k] == if o.clip.y <= r < o.clip.y + l
                            && b.start_index <= k < b.start_index + b.nb_cells {
                            painted_cell(b.cells@[k], color, bg)
                        } else {
                            b.cells@[k]
                        }
                },
        decreases h - l,
    {
        let ghost s0 = *screen;
        let ghost row = o.clip.y + l;
        if let Some(line) = screen.get_line_mut(l) {
            let ghost line0 = *line;
            let start = line.start_index;
            let end = line.start_index + line.nb_cells;
            let mut k: usize = start;
            while k < end
                invariant
                    start == line0.start_index,
                    end == line0.start_index + line0.nb_cells,
                    end <= line0.cells@.len(),
                    start <= k <= end,
                    line.wf(),
                    line.same_layout(line0),
                    line.cells@.len() == line0.cells@.len(),
                    forall|q: int|
                        0 <= q < line0.cells@.len() ==> #[trigger] line.cells@[q] == if start <= q < k {
                            painted_cell(line0.cells@[q], color, bg)
                        } else {
                            line0.cells@[q]
                        },
                decreases end - k,
            {
                let mut cell = line.cells[k];
                cell.cpi.style.color = color;
                cell.cpi.style.bg_color = bg;
                line.cells.set(k, cell);
                k = k + 1;
            }
        }
        proof {
            assert forall|r: int| 0 <= r < o.max_height implies {
                let a = #[trigger] screen.line@[r];
                let b = o.line@[r];
                &&& a.same_layout(b)
                &&& a.cells@.len() == b.cells@.len()
                &&& forall|k: int|
                    0 <= k < b.cells@.len() ==> #[trigger] a.cells@[k] == if o.clip.y <= r < o.clip.y + l + 1
                        && b.start_index <= k < b.start_index + b.nb_cells {
                        painted_cell(b.cells@[k], color, bg)
                    } else {
                        b.cells@[k]
                    }
            } by {
                if r != row {
                    assert(screen.line@[r] == s0.line@[r]);
                }
            }
        }
        l = l + 1;
    }
}

/// The bar under an empty line: drawn in the title colors.
pub struct EmptyLineModeCompose {}

impl EmptyLineModeCompose {
    pub fn new() -> (f: EmptyLineModeCompose) {
        EmptyLineModeCompose {  }
    }

    /// Draws the bar in the title colors.
    pub fn finish(&mut self, env: &mut LayoutEnv)
        requires
            old(env).screen.wf(),
        ensures
            painted(
                old(env).screen,
                final(env).screen,
                TextStyle::spec_title_color(),
                TextStyle::spec_title_bg_color(),
            ),
            final(env).quit == old(env).quit,
    {
        paint_used_cells(&mut env.screen, TextStyle::title_color(), TextStyle::title_bg_color());
    }
}

/// The bar of the directory view: drawn in the title colors.
pub struct DirModeCompose {}

impl DirModeCompose {
    pub fn new() -> (f: DirModeCompose) {
        DirModeCompose {  }
    }

    /// Draws the bar in the title colors.
    pub fn finish(&mut self, env: &mut LayoutEnv)
        requires
            old(env).screen.wf(),
        ensures
            painted(
                old(env).screen,
                final(env).screen,
                TextStyle::spec_title_color(),
                TextStyle::spec_title_bg_color(),
            ),
            final(env).quit == old(env).quit,
    {
        paint_used_cells(&mut env.screen, TextStyle::title_color(), TextStyle::title_bg_color());
    }
}

/// The status bar: black on grey once it shows more than the end of the
/// document.
pub struct StatusModeCompose {}

impl StatusModeCompose {
    pub fn new() -> (f: StatusModeCompose) {
        StatusModeCompose {  }
    }

    /// Draws the bar, unless at most one cell was put on it.
    pub fn finish(&mut self, env: &mut LayoutEnv)
        requires
            old(env).screen.wf(),
        ensures
            old(env).screen.push_count <= 1 ==> final(env).screen == old(env).screen,
            old(env).screen.push_count > 1 ==> painted(
                old(env).screen,
                final(env).screen,
                (0u8, 0u8, 0u8),
                (113u8, 114u8, 123u8),
            ),
            final(env).quit == old(env).quit,
    {
        if env.screen.push_count() <= 1 {
            return ;
        }
        paint_used_cells(&mut env.screen, (0, 0, 0), (113, 114, 123));
    }
}

/// The status line of the editor: the name of the document of the target
/// view.
pub struct StatusLineModeCompose {
    pub width: usize,
    pub height: usize,
    pub content: Vec<char>,
}

impl StatusLineModeCompose {
    pub fn new() -> (f: StatusLineModeCompose)
        ensures
            f.width == 0,
            f.height == 0,
            f.content@.len() == 0,
    {
        StatusLineModeCompose { width: 0, height: 0, content: Vec::new() }
    }

    /// Notes the size of the screen, and the name of the target view's
    /// document, between brackets, when there is a target view.
    pub fn setup(&mut self, env: &LayoutEnv, target_buffer_name: Option<&Vec<char>>)
        requires
            env.screen.wf(),
        ensures
            final(self).width == env.screen.spec_width(),
            final(self).height == env.screen.spec_height(),
            final(self).content@ == match target_buffer_name {
                Some(n) => seq!['['] + n@ + seq![']'],
                None => Seq::<char>::empty(),
            },
    {
        self.width = env.screen.width();
        self.height = env.screen.height();
        self.content = Vec::new();
        match target_buffer_name {
            Some(n) => {
                self.content.push('[');
                append_chars(&mut self.content, n);
                self.content.push(']');
            },
            None => {},
        }
    }
}

/// Appends the code points `s` to `v`.
pub(crate) fn append_chars(v: &mut Vec<char>, s: &Vec<char>)
    ensures
        final(v)@ == old(v)@ + s@,
{
    let n = s.len();
    let mut i: usize = 0;
    while i < n
        invariant
            n == s@.len(),
            i <= n,
            v@ == old(v)@ + s@.take(i as int),
        decreases n - i,
    {
        v.push(s[i]);
        i = i + 1;
        assert(v@ =~= old(v)@ + s@.take(i as int));
    }
    assert(s@.take(n as int) =~= s@);
}

/// The head of the editor title: the editor and its version.
pub open spec fn title_head(version: Seq<char>) -> Seq<char> {
    seq!['u', 'n', 'l', 'i', 'm', 'i', 't', 'E', 'D', ' '] + version + seq![' ']
}

/// The text of the help key in the editor title.
pub open spec fn help_text() -> Seq<char> {
    seq![
        ' ',
        'b',
        'y',
        't',
        'e',
        's',
        ' ',
        '(',
        'F',
        '1',
        ' ',
        'f',
        'o',
        'r',
        ' ',
        'h',
        'e',
        'l',
        'p',
        ')',
    ]
}

/// What the editor title says of the document: its name, `* ` when it
/// changed (two spaces otherwise), `(sync)` while it is saved, its size,
/// the help key, and the view that has the focus when there is one.
pub open spec fn title_info(
    doc_name: Seq<char>,
    changed: bool,
    syncing: bool,
    size: u64,
    focus: Option<usize>,
) -> Seq<char> {
    let mark = if changed {
        seq!['*', ' ']
    } else {
        seq![' ', ' ']
    };
    let sync = if syncing {
        seq!['(', 's', 'y', 'n', 'c', ')']
    } else {
        Seq::empty()
    };
    let focus_text = match focus {
        Some(id) => seq![' ', '(', 'f', 'o', 'c', 'u', 's', ' ', 'v', 'i', 'd', ':', ' ', 'I', 'd', '(']
            + decimal_string(id as nat) + seq![')', ')'],
        None => Seq::empty(),
    };
    doc_name + mark + sync + seq![' '] + decimal_string(size as nat) + help_text() + focus_text
}

/// The text of the editor title: its head, a space when the screen leaves
/// more room beyond the head than the name takes (both counted in UTF-8
/// bytes), and what it says of the document.
pub open spec fn title_text(
    width: int,
    version: Seq<char>,
    doc_name: Seq<char>,
    changed: bool,
    syncing: bool,
    size: u64,
    focus: Option<usize>,
) -> Seq<char> {
    let head = title_head(version);
    let w = if width >= utf8_len(head) {
        width - utf8_len(head)
    } else {
        0
    };
    let margin = if w > utf8_len(doc_name) {
        seq![' ']
    } else {
        Seq::empty()
    };
    head + margin + title_info(doc_name, changed, syncing, size, focus)
}

/// The head of the title (see `title_head`).
fn make_title_head(version: &Vec<char>) -> (t: Vec<char>)
    ensures
        t@ == title_head(version@),
{
    let mut t: Vec<char> = vec!['u', 'n', 'l', 'i', 'm', 'i', 't', 'E', 'D', ' '];
    append_chars(&mut t, version);
    t.push(' ');
    assert(t@ =~= title_head(version@));
    t
}

/// What the title says of the document (see `title_info`).
fn make_title_info(doc_name: &Vec<char>, changed: bool, syncing: bool, size: u64, focus: Option<usize>) -> (t:
    Vec<char>)
    ensures
        t@ == title_info(doc_name@, changed, syncing, size, focus),
{
    let mut t: Vec<char> = Vec::new();
    append_chars(&mut t, doc_name);
    if changed {
        t.push('*');
        t.push(' ');
    } else {
        t.push(' ');
        t.push(' ');
    }
    if syncing {
        let s: Vec<char> = vec!['(', 's', 'y', 'n', 'c', ')'];
        append_chars(&mut t, &s);
    }
    t.push(' ');
    let digits = decimal_chars(size);
    append_chars(&mut t, &digits);
    let ghost before_help = t@;
    let help: Vec<char> = vec![
        ' ',
        'b',
        'y',
        't',
        'e',
        's',
        ' ',
        '(',
        'F',
        '1',
        ' ',
        'f',
        'o',
        'r',
        ' ',
        'h',
        'e',
        'l',
        'p',
        ')',
    ];
    assert(help@ =~= help_text());
    append_chars(&mut t, &help);
    let ghost before_focus = t@;
    match focus {
        Some(id) => {
            let head: Vec<char> = vec![
                ' ',
                '(',
                'f',
                'o',
                'c',
                'u',
                's',
                ' ',
                'v',
                'i',
                'd',
                ':',
                ' ',
                'I',
                'd',
                '(',
            ];
            append_chars(&mut t, &head);
            let d = decimal_chars(id as u64);
            append_chars(&mut t, &d);
            t.push(')');
            t.push(')');
        },
        None => {},
    }
    assert(t@ =~= title_info(doc_name@, changed, syncing, size, focus));
    t
}

/// The title bar of the editor.
pub struct BasicEditorTitle {
    pub title: Vec<char>,
    pub width: usize,
    pub height: usize,
}

impl BasicEditorTitle {
    pub fn new() -> (f: BasicEditorTitle)
        ensures
            f.title@.len() == 0,
            f.width == 0,
            f.height == 0,
    {
        BasicEditorTitle { title: Vec::new(), width: 0, height: 0 }
    }

    /// Builds the title (see `title_text`) for the screen of the layout,
    /// a document named `doc_name` of `size` bytes, and the view that has
    /// the focus, when there is one.
    pub fn setup(
        &mut self,
        env: &LayoutEnv,
        version: &Vec<char>,
        doc_name: &Vec<char>,
        changed: bool,
        syncing: bool,
        size: u64,
        focus: Option<usize>,
    )
        requires
            env.screen.wf(),
            utf8_len(title_head(version@)) <= usize::MAX,
            utf8_len(doc_name@) <= usize::MAX,
        ensures
            final(self).width == env.screen.spec_width(),
            final(self).height == env.screen.spec_height(),
            final(self).title@ == title_text(
                env.screen.spec_width(),
                version@,
                doc_name@,
                changed,
                syncing,
                size,
                focus,
            ),
    {
        self.width = env.screen.width();
        self.height = env.screen.height();
        let codec = Utf8Codec::new();
        let mut title = make_title_head(version);
        let head_bytes = encode_chars(&codec, &title).len();
        let name_bytes = encode_chars(&codec, doc_name).len();
        let w = self.width.saturating_sub(head_bytes);
        if w > name_bytes {
            title.push(' ');
        }
        let info = make_title_info(doc_name, changed, syncing, size, focus);
        append_chars(&mut title, &info);
        self.title = title;
    }
}

/// The label of the tab of the view `idx` of the active views, whose
/// document is named `name`: the name followed by a cross, behind a bar
/// for all views but the first.
pub open spec fn tab_label(idx: int, name: Seq<char>) -> Seq<char> {
    (if idx != 0 {
        seq!['|']
    } else {
        Seq::empty()
    }) + name + seq![' ', '⨯']
}

/// The labels of the tabs of the active views, given the name of each
/// one's document (`None` for a view without one, which gets no tab).
pub open spec fn tab_labels_of(names: Seq<Option<Seq<char>>>) -> Seq<Seq<char>>
    decreases names.len(),
{
    if names.len() == 0 {
        Seq::empty()
    } else {
        let k = names.len() - 1;
        tab_labels_of(names.drop_last()) + match names[k] {
            Some(n) => seq![tab_label(k, n)],
            None => Seq::empty(),
        }
    }
}

/// The labels of the tabs (see `tab_labels_of`).
pub fn tab_labels(names: &Vec<Option<Vec<char>>>) -> (labels: Vec<Vec<char>>)
    ensures
        labels@.len() == tab_labels_of(names@.map_values(|n: Option<Vec<char>>| view_name(n))).len(),
        forall|k: int|
            0 <= k < labels@.len() ==> #[trigger] labels@[k]@ == tab_labels_of(
                names@.map_values(|n: Option<Vec<char>>| view_name(n)),
            )[k],
{
    let ghost model = names@.map_values(|n: Option<Vec<char>>| view_name(n));
    let mut labels: Vec<Vec<char>> = Vec::new();
    let n = names.len();
    let mut i: usize = 0;
    assert(model.take(0) =~= Seq::<Option<Seq<char>>>::empty());
    while i < n
        invariant
            n == names@.len(),
            model == names@.map_values(|n: Option<Vec<char>>| view_name(n)),
            i <= n,
            labels@.len() == tab_labels_of(model.take(i as int)).len(),
            forall|k: int|
                0 <= k < labels@.len() ==> #[trigger] labels@[k]@ == tab_labels_of(model.take(i as int))[k],
        decreases n - i,
    {
        let ghost before = model.take(i as int);
        assert(model.take(i + 1).drop_last() =~= before);
        match &names[i] {
            Some(name) => {
                let mut l: Vec<char> = Vec::new();
                if i != 0 {
                    l.push('|');
                }
                append_chars(&mut l, name);
                l.push(' ');
                l.push('⨯');
                proof {
                    assert(l@ =~= tab_label(i as int, name@));
                    assert(model.take(i + 1)[i as int] == Some(name@));
                }
                labels.push(l);
            },
            None => {
                assert(model.take(i + 1)[i as int] == None::<Seq<char>>);
            },
        }
        i = i + 1;
    }
    assert(model.take(n as int) =~= model);
    labels
}

/// The name a view's document is known by, as code points.
pub open spec fn view_name(n: Option<Vec<char>>) -> Option<Seq<char>> {
    match n {
        Some(v) => Some(v@),
        None => None,
    }
}

} // verus!
