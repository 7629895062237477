//! Opening a document: the path typed in the controller view, the
//! completions a directory offers for it, and moving among them.

use vstd::prelude::*;

use crate::buffer::Buffer;
use crate::codec::Utf8Codec;
use crate::modes::bars::append_chars;
use crate::text_mode::editing::{encode_chars, encoded};
use crate::view::Id;

verus! {

/// The state of the mode in the text view it opens documents for. The
/// completions are paths, each ended by a line feed (and by the separator
/// for a directory).
pub struct OpenDocModeContext {
    pub revision: usize,
    pub controller_view_id: Id,
    pub completion_view_id: Id,
    pub active: bool,
    pub prompt: Vec<char>,
    pub completion_list: Vec<Vec<char>>,
    pub completion_index: usize,
    pub error_msg: Option<Vec<char>>,
}

impl OpenDocModeContext {
    pub fn new() -> (c: OpenDocModeContext)
        ensures
            c.revision == 0,
            c.controller_view_id == Id(0),
            c.completion_view_id == Id(0),
            !c.active,
            c.prompt@.len() == 0,
            c.completion_list@.len() == 0,
            c.completion_index == 0,
            c.error_msg is None,
    {
        OpenDocModeContext {
            revision: 0,
            controller_view_id: Id(0),
            completion_view_id: Id(0),
            active: false,
            prompt: Vec::new(),
            completion_list: Vec::new(),
            completion_index: 0,
            error_msg: None,
        }
    }

    /// Forgets the path typed and the completions, and leaves the mode.
    pub fn reset(&mut self) -> (r: &mut Self)
        ensures
            r.revision == 0,
            !r.active,
            r.prompt@.len() == 0,
            r.completion_list@.len() == 0,
            r.completion_index == 0,
            r.error_msg == old(self).error_msg,
            r.controller_view_id == old(self).controller_view_id,
            r.completion_view_id == old(self).completion_view_id,
            *final(self) == *final(r),
    {
        self.revision = 0;
        self.active = false;
        self.prompt.clear();
        self.completion_list = Vec::new();
        self.completion_index = 0;
        self
    }
}

pub struct OpenDocMode {}

impl OpenDocMode {
    pub fn new() -> (m: OpenDocMode) {
        OpenDocMode {  }
    }
}

/// The index of the last `sep` of `s`, or -1.
pub open spec fn last_index_of(s: Seq<char>, sep: char) -> int
    decreases s.len(),
{
    if s.len() == 0 {
        -1
    } else if s.last() == sep {
        s.len() - 1
    } else {
        last_index_of(s.drop_last(), sep)
    }
}

proof fn lemma_last_index_bounds(s: Seq<char>, sep: char)
    ensures
        -1 <= last_index_of(s, sep) < s.len(),
        last_index_of(s, sep) >= 0 ==> s[last_index_of(s, sep)] == sep,
    decreases s.len(),
{
    if s.len() > 0 && s.last() != sep {
        lemma_last_index_bounds(s.drop_last(), sep);
    }
}

/// The directory part of a path, up to its last separator (included), and
/// the rest; the whole path and nothing when it has no separator.
pub open spec fn split_path(s: Seq<char>, sep: char) -> (Seq<char>, Seq<char>) {
    let i = last_index_of(s, sep);
    if i < 0 {
        (s, Seq::empty())
    } else {
        (s.take(i + 1), s.skip(i + 1))
    }
}

/// Splits the path `s` (see `split_path`).
pub fn split_prompt(s: &Vec<char>, sep: char) -> (r: (Vec<char>, Vec<char>))
    ensures
        (r.0@, r.1@) == split_path(s@, sep),
{
    let n = s.len();
    let mut i: usize = n;
    proof {
        assert(s@.take(n as int) =~= s@);
    }
    while i > 0 && s[i - 1] != sep
        invariant
            i <= n,
            n == s@.len(),
            last_index_of(s@, sep) == last_index_of(s@.take(i as int), sep),
        decreases i,
    {
        proof {
            assert(s@.take(i as int).drop_last() =~= s@.take(i - 1));
        }
        i = i - 1;
    }
    proof {
        if i == 0 {
            assert(s@.take(0) =~= Seq::<char>::empty());
        }
    }
    let mut prefix: Vec<char> = Vec::new();
    let mut suffix: Vec<char> = Vec::new();
    if i == 0 {
        let mut k: usize = 0;
        while k < n
            invariant
                n == s@.len(),
                k <= n,
                prefix@ == s@.take(k as int),
            decreases n - k,
        {
            prefix.push(s[k]);
            k = k + 1;
            assert(prefix@ =~= s@.take(k as int));
        }
        assert(s@.take(n as int) =~= s@);
        return (prefix, suffix);
    }
    let mut k: usize = 0;
    while k < n
        invariant
            n == s@.len(),
            0 < i <= n,
            k <= n,
            k <= i ==> prefix@ == s@.take(k as int) && suffix@.len() == 0,
            k > i ==> prefix@ == s@.take(i as int) && suffix@ == s@.subrange(i as int, k as int),
        decreases n - k,
    {
        if k < i {
            prefix.push(s[k]);
        } else {
            suffix.push(s[k]);
        }
        k = k + 1;
        proof {
            if k <= i {
                assert(prefix@ =~= s@.take(k as int));
            } else {
                assert(suffix@ =~= s@.subrange(i as int, k as int));
            }
        }
    }
    proof {
        if n == i {
            assert(suffix@ =~= s@.skip(i as int));
        } else {
            assert(suffix@ =~= s@.skip(i as int));
        }
    }
    (prefix, suffix)
}

/// `p` starts `s`.
pub open spec fn starts_with(s: Seq<char>, p: Seq<char>) -> bool {
    p.len() <= s.len() && s.take(p.len() as int) == p
}

fn vec_starts_with(s: &Vec<char>, p: &Vec<char>) -> (b: bool)
    ensures
        b == starts_with(s@, p@),
{
    if p.len() > s.len() {
        return false;
    }
    let mut i: usize = 0;
    while i < p.len()
        invariant
            p@.len() <= s@.len(),
            i <= p@.len(),
            forall|k: int| 0 <= k < i ==> s@[k] == p@[k],
        decreases p@.len() - i,
    {
        if s[i] != p[i] {
            assert(s@.take(p@.len() as int)[i as int] != p@[i as int]);
            return false;
        }
        i = i + 1;
    }
    assert(s@.take(p@.len() as int) =~= p@);
    true
}

/// An entry of the directory being completed: its path, its name (the
/// last part of the path), and whether it is a directory.
pub struct DirEntry {
    pub path: Vec<char>,
    pub name: Vec<char>,
    pub is_dir: bool,
}

/// The completion an entry gives: its path, the separator for a
/// directory, and a line feed.
pub open spec fn completion_of(path: Seq<char>, is_dir: bool, sep: char) -> Seq<char> {
    (if is_dir {
        path.push(sep)
    } else {
        path
    }).push('\n')
}

/// The completions of the entries whose name starts with `suffix`, in
/// their order.
pub open spec fn matching_completions(entries: Seq<(Seq<char>, Seq<char>, bool)>, suffix: Seq<char>, sep: char) -> Seq<
    Seq<char>,
>
    decreases entries.len(),
{
    if entries.len() == 0 {
        Seq::empty()
    } else {
        let r = matching_completions(entries.drop_last(), suffix, sep);
        let e = entries.last();
        if starts_with(e.1, suffix) {
            r.push(completion_of(e.0, e.2, sep))
        } else {
            r
        }
    }
}

/// The entries as plain values.
pub open spec fn entries_model(entries: Seq<DirEntry>) -> Seq<(Seq<char>, Seq<char>, bool)> {
    Seq::new(entries.len(), |k: int| (entries[k].path@, entries[k].name@, entries[k].is_dir))
}

/// `a` comes before `b` in the order of their code points.
pub open spec fn lex_lt(a: Seq<char>, b: Seq<char>) -> bool
    decreases a.len(),
{
    if a.len() == 0 {
        b.len() > 0
    } else if b.len() == 0 {
        false
    } else if a[0] != b[0] {
        a[0] < b[0]
    } else {
        lex_lt(a.drop_first(), b.drop_first())
    }
}

pub open spec fn lex_le(a: Seq<char>, b: Seq<char>) -> bool {
    a == b || lex_lt(a, b)
}

proof fn lemma_lex_total(a: Seq<char>, b: Seq<char>)
    ensures
        lex_lt(a, b) || lex_lt(b, a) || a == b,
        !(lex_lt(a, b) && lex_lt(b, a)),
        lex_lt(a, b) ==> a != b,
    decreases a.len(),
{
    if a.len() > 0 && b.len() > 0 && a[0] == b[0] {
        lemma_lex_total(a.drop_first(), b.drop_first());
        if a.drop_first() == b.drop_first() {
            assert(a =~= seq![a[0]] + a.drop_first());
            assert(b =~= seq![b[0]] + b.drop_first());
        }
    } else if a.len() == 0 && b.len() == 0 {
        assert(a =~= b);
    }
}

proof fn lemma_lex_trans(a: Seq<char>, b: Seq<char>, c: Seq<char>)
    requires
        lex_lt(a, b),
        lex_lt(b, c),
    ensures
        lex_lt(a, c),
    decreases a.len(),
{
    if a.len() > 0 && b.len() > 0 && c.len() > 0 && a[0] == b[0] && b[0] == c[0] {
        lemma_lex_trans(a.drop_first(), b.drop_first(), c.drop_first());
    }
}

/// Compares two paths in the order of their code points.
fn vec_lex_lt(a: &Vec<char>, b: &Vec<char>) -> (r: bool)
    ensures
        r == lex_lt(a@, b@),
{
    let mut i: usize = 0;
    assert(a@.skip(0) =~= a@);
    assert(b@.skip(0) =~= b@);
    while i < a.len() && i < b.len() && a[i] == b[i]
        invariant
            i <= a@.len(),
            i <= b@.len(),
            lex_lt(a@, b@) == lex_lt(a@.skip(i as int), b@.skip(i as int)),
        decreases a@.len() - i,
    {
        proof {
            assert(a@.skip(i as int).drop_first() =~= a@.skip(i + 1));
            assert(b@.skip(i as int).drop_first() =~= b@.skip(i + 1));
        }
        i = i + 1;
    }
    if i == a.len() {
        i < b.len()
    } else if i == b.len() {
        false
    } else {
        a[i] < b[i]
    }
}

/// The paths are in order.
pub open spec fn lex_sorted(s: Seq<Seq<char>>) -> bool {
    forall|i: int, j: int| 0 <= i < j < s.len() ==> lex_le(#[trigger] s[i], #[trigger] s[j])
}

/// Sorts the paths in the order of their code points.
fn sort_paths(v: &mut Vec<Vec<char>>)
    ensures
        final(v)@.len() == old(v)@.len(),
        lex_sorted(final(v)@.map_values(|p: Vec<char>| p@)),
        final(v)@.map_values(|p: Vec<char>| p@).to_multiset() == old(v)@.map_values(|p: Vec<char>| p@).to_multiset(),
{
    let n = v.len();
    let mut out: Vec<Vec<char>> = Vec::new();
    let ghost src = v@.map_values(|p: Vec<char>| p@);
    let mut rest: Vec<Vec<char>> = Vec::new();
    std::mem::swap(&mut rest, v);
    let mut i: usize = 0;
    proof {
        assert(rest@.map_values(|p: Vec<char>| p@) == src);
        assert(out@.map_values(|p: Vec<char>| p@) =~= Seq::<Seq<char>>::empty());
        assert(src.take(0) =~= Seq::<Seq<char>>::empty());
    }
    while i < n
        invariant
            n == rest@.len(),
            i <= n,
            rest@.map_values(|p: Vec<char>| p@) == src,
            out@.len() == i,
            lex_sorted(out@.map_values(|p: Vec<char>| p@)),
            out@.map_values(|p: Vec<char>| p@).to_multiset() == src.take(i as int).to_multiset(),
        decreases n - i,
    {
        let x = rest[i].clone();
        let ghost xs = x@;
        proof {
            assert(xs == src[i as int]);
        }
        let ghost before = out@.map_values(|p: Vec<char>| p@);
        let mut j: usize = 0;
        while j < out.len() && !vec_lex_lt(&x, &out[j])
            invariant
                j <= out@.len(),
                xs == x@,
                before == out@.map_values(|p: Vec<char>| p@),
                forall|k: int| 0 <= k < j ==> !lex_lt(xs, #[trigger] before[k]),
            decreases out@.len() - j,
        {
            assert(before[j as int] == out@[j as int]@);
            j = j + 1;
        }
        let ghost jj = j as int;
        out.insert(j, x);
        proof {
            let after = out@.map_values(|p: Vec<char>| p@);
            assert(after =~= before.insert(jj, xs));
            assert forall|a: int, b: int| 0 <= a < b < after.len() implies lex_le(
                #[trigger] after[a],
                #[trigger] after[b],
            ) by {
                if a < jj && b < jj {
                    assert(after[a] == before[a] && after[b] == before[b]);
                } else if a < jj && b == jj {
                    lemma_lex_total(xs, before[a]);
                } else if a < jj && b > jj {
                    assert(after[a] == before[a] && after[b] == before[b - 1]);
                } else if a == jj {
                    assert(after[b] == before[b - 1]);
                    if jj < before.len() {
                        assert(lex_lt(xs, before[jj]));
                        if b - 1 > jj {
                            assert(lex_le(before[jj], before[b - 1]));
                            if before[jj] != before[b - 1] {
                                lemma_lex_trans(xs, before[jj], before[b - 1]);
                            }
                        }
                    }
                } else {
                    assert(after[a] == before[a - 1] && after[b] == before[b - 1]);
                }
            }
            assert(src.take(i + 1) =~= src.take(i as int).push(xs));
            vstd::seq_lib::to_multiset_build(src.take(i as int), xs);
            vstd::seq_lib::to_multiset_insert(before, jj, xs);
        }
        i = i + 1;
    }
    proof {
        assert(src.take(n as int) =~= src);
    }
    *v = out;
}

/// The length of a path in UTF-8 bytes.
pub open spec fn utf8_len(s: Seq<char>) -> nat {
    encoded(&Utf8Codec {  }, s).len()
}

/// The path a completion puts in the prompt: as many of its code points
/// as its UTF-8 length less one (for a path in ASCII, the completion
/// without its line feed).
pub open spec fn completion_prompt(c: Seq<char>) -> Seq<char> {
    let n = if utf8_len(c) >= 1 {
        utf8_len(c) - 1
    } else {
        0
    };
    if n < c.len() {
        c.take(n as int)
    } else {
        c
    }
}

/// The prompt a completion gives (see `completion_prompt`).
fn prompt_of_completion(c: &Vec<char>) -> (p: Vec<char>)
    requires
        utf8_len(c@) <= usize::MAX,
    ensures
        p@ == completion_prompt(c@),
{
    let codec = Utf8Codec::new();
    let bytes = encode_chars(&codec, c);
    let n = if bytes.len() >= 1 {
        bytes.len() - 1
    } else {
        0
    };
    let mut p: Vec<char> = Vec::new();
    let mut k: usize = 0;
    while k < n && k < c.len()
        invariant
            k <= c@.len(),
            k <= n,
            n == (if utf8_len(c@) >= 1 {
                utf8_len(c@) - 1
            } else {
                0
            }),
            p@ == c@.take(k as int),
        decreases c@.len() - k,
    {
        p.push(c[k]);
        k = k + 1;
        assert(p@ =~= c@.take(k as int));
    }
    proof {
        if n >= c@.len() {
            assert(c@.take(c@.len() as int) =~= c@);
        }
    }
    p
}

/// The message shown when the directory of `prompt` cannot be read.
pub open spec fn cannot_read_msg(prompt: Seq<char>) -> Seq<char> {
    seq!['c', 'a', 'n', 'n', 'o', 't', ' ', 'r', 'e', 'a', 'd', ' ', '\''] + prompt + seq!['\'', '\n']
}

/// The completion an entry gives (see `completion_of`).
fn completion_chars(e: &DirEntry, sep: char) -> (c: Vec<char>)
    ensures
        c@ == completion_of(e.path@, e.is_dir, sep),
{
    let mut c = e.path.clone();
    assert(c@ =~= e.path@);
    if e.is_dir {
        c.push(sep);
    }
    c.push('\n');
    c
}

/// The completions of the path typed: the entries of its directory
/// (`None` when it cannot be read, and a message says so) whose names
/// start with what follows the last separator, in order. A single
/// completion, when `auto_complete`, goes to the prompt. Returns whether
/// there is a completion.
pub fn open_doc_do_completion(
    odm: &mut OpenDocModeContext,
    entries: Option<&Vec<DirEntry>>,
    auto_complete: bool,
    sep: char,
) -> (has_item: bool)
    requires
        entries matches Some(es) ==> forall|k: int|
            0 <= k < es@.len() ==> utf8_len(completion_of(#[trigger] es@[k].path@, es@[k].is_dir, sep))
                <= usize::MAX,
    ensures
        final(odm).completion_index == 0,
        final(odm).revision == old(odm).revision,
        final(odm).active == old(odm).active,
        final(odm).controller_view_id == old(odm).controller_view_id,
        final(odm).completion_view_id == old(odm).completion_view_id,
        has_item == (final(odm).completion_list@.len() > 0),
        lex_sorted(final(odm).completion_list@.map_values(|p: Vec<char>| p@)),
        ({
            let suffix = split_path(old(odm).prompt@, sep).1;
            match entries {
                Some(es) => {
                    let m = matching_completions(entries_model(es@), suffix, sep);
                    &&& final(odm).error_msg is None
                    &&& final(odm).completion_list@.map_values(|p: Vec<char>| p@).to_multiset() == m.to_multiset()
                    &&& final(odm).prompt@ == if m.len() == 1 && auto_complete {
                        completion_prompt(m[0])
                    } else {
                        old(odm).prompt@
                    }
                },
                None => {
                    &&& final(odm).error_msg matches Some(msg) && msg@ == cannot_read_msg(old(odm).prompt@)
                    &&& final(odm).completion_list@.len() == 0
                    &&& final(odm).prompt@ == old(odm).prompt@
                },
            }
        }),
{
    odm.completion_list = Vec::new();
    odm.completion_index = 0;
    let (_prefix, suffix) = split_prompt(&odm.prompt, sep);
    match entries {
        Some(es) => {
            odm.error_msg = None;
            let ghost o1 = *odm;
            let n = es.len();
            let mut i: usize = 0;
            while i < n
                invariant
                    n == es@.len(),
                    i <= n,
                    odm.completion_index == 0,
                    odm.error_msg is None,
                    odm.prompt == o1.prompt,
                    o1.prompt == old(odm).prompt,
                    odm.revision == old(odm).revision,
                    odm.active == old(odm).active,
                    odm.controller_view_id == old(odm).controller_view_id,
                    odm.completion_view_id == old(odm).completion_view_id,
                    suffix@ == split_path(old(odm).prompt@, sep).1,
                    odm.completion_list@.map_values(|p: Vec<char>| p@) == matching_completions(
                        entries_model(es@).take(i as int),
                        suffix@,
                        sep,
                    ),
                decreases n - i,
            {
                let ghost before = odm.completion_list@;
                proof {
                    assert(entries_model(es@).take(i + 1).drop_last() =~= entries_model(es@).take(i as int));
                }
                if vec_starts_with(&es[i].name, &suffix) {
                    let c = completion_chars(&es[i], sep);
                    odm.completion_list.push(c);
                    proof {
                        assert(odm.completion_list@.map_values(|p: Vec<char>| p@) =~= before.map_values(
                            |p: Vec<char>| p@,
                        ).push(completion_of(es@[i as int].path@, es@[i as int].is_dir, sep)));
                    }
                }
                i = i + 1;
            }
            proof {
                assert(entries_model(es@).take(n as int) =~= entries_model(es@));
            }
            if odm.completion_list.len() == 1 && auto_complete {
                proof {
                    let m = matching_completions(entries_model(es@), suffix@, sep);
                    assert(odm.completion_list@[0]@ == m[0]);
                    lemma_matching_elems(entries_model(es@), suffix@, sep, 0);
                    let k = choose|k: int|
                        0 <= k < entries_model(es@).len() && m[0] == completion_of(
                            entries_model(es@)[k].0,
                            entries_model(es@)[k].2,
                            sep,
                        );
                    assert(utf8_len(completion_of(es@[k].path@, es@[k].is_dir, sep)) <= usize::MAX);
                }
                let p = prompt_of_completion(&odm.completion_list[0]);
                odm.prompt = p;
            }
        },
        None => {
            let mut msg: Vec<char> = vec!['c', 'a', 'n', 'n', 'o', 't', ' ', 'r', 'e', 'a', 'd', ' ', '\''];
            let ghost head = msg@;
            let n = odm.prompt.len();
            let mut i: usize = 0;
            while i < n
                invariant
                    n == odm.prompt@.len(),
                    i <= n,
                    msg@ == head + odm.prompt@.take(i as int),
                decreases n - i,
            {
                msg.push(odm.prompt[i]);
                i = i + 1;
                assert(msg@ =~= head + odm.prompt@.take(i as int));
            }
            msg.push('\'');
            msg.push('\n');
            proof {
                assert(odm.prompt@.take(n as int) =~= odm.prompt@);
                assert(msg@ =~= cannot_read_msg(odm.prompt@));
            }
            odm.error_msg = Some(msg);
            odm.completion_list = Vec::new();
            odm.completion_index = 0;
        },
    }
    sort_paths(&mut odm.completion_list);
    odm.completion_list.len() > 0
}

/// Each completion of the entries is the completion of one of them.
proof fn lemma_matching_elems(entries: Seq<(Seq<char>, Seq<char>, bool)>, suffix: Seq<char>, sep: char, j: int)
    requires
        0 <= j < matching_completions(entries, suffix, sep).len(),
    ensures
        exists|k: int|
            0 <= k < entries.len() && matching_completions(entries, suffix, sep)[j] == completion_of(
                entries[k].0,
                entries[k].2,
                sep,
            ),
    decreases entries.len(),
{
    let p = entries.drop_last();
    let r = matching_completions(p, suffix, sep);
    if j < r.len() {
        lemma_matching_elems(p, suffix, sep, j);
        let k = choose|k: int| 0 <= k < p.len() && r[j] == completion_of(p[k].0, p[k].2, sep);
        assert(entries[k] == p[k]);
    } else {
        let k = entries.len() - 1;
        assert(matching_completions(entries, suffix, sep)[j] == completion_of(entries[k].0, entries[k].2, sep));
    }
}

/// Where the completion `i` starts in the completion view: the UTF-8
/// lengths of those before it.
pub open spec fn completion_offset(list: Seq<Seq<char>>, i: int) -> int
    decreases i,
{
    if i <= 0 {
        0
    } else {
        completion_offset(list, i - 1) + utf8_len(list[i - 1])
    }
}

/// The completion view fits a `u64`.
pub open spec fn completions_fit(list: Seq<Seq<char>>) -> bool {
    completion_offset(list, list.len() as int) <= usize::MAX
}

proof fn lemma_offset_grows(list: Seq<Seq<char>>, i: int, j: int)
    requires
        0 <= i <= j <= list.len(),
    ensures
        0 <= completion_offset(list, i) <= completion_offset(list, j),
    decreases j,
{
    if i < j {
        lemma_offset_grows(list, i, j - 1);
    } else if j > 0 {
        lemma_offset_grows(list, j - 1, j - 1);
    }
}

/// The start of the completion `index` in the completion view.
fn offset_of_completion(list: &Vec<Vec<char>>, index: usize) -> (o: u64)
    requires
        index <= list@.len(),
        completions_fit(list@.map_values(|p: Vec<char>| p@)),
    ensures
        o == completion_offset(list@.map_values(|p: Vec<char>| p@), index as int),
{
    let ghost m = list@.map_values(|p: Vec<char>| p@);
    let codec = Utf8Codec::new();
    let mut offset: usize = 0;
    let mut i: usize = 0;
    while i < index
        invariant
            i <= index <= list@.len(),
            m == list@.map_values(|p: Vec<char>| p@),
            completions_fit(m),
            offset == completion_offset(m, i as int),
        decreases index - i,
    {
        proof {
            lemma_offset_grows(m, i + 1, m.len() as int);
            assert(m[i as int] == list@[i as int]@);
        }
        let bytes = encode_chars(&codec, &list[i]);
        offset = offset + bytes.len();
        i = i + 1;
    }
    offset as u64
}

/// Selects the next completion, after the last one the first; returns the
/// offset the completion view's mark goes to. Nothing is done without
/// completions, or when the directory could not be read.
pub fn open_doc_controller_select_next_completion(odm: &mut OpenDocModeContext) -> (r: Option<u64>)
    requires
        completions_fit(old(odm).completion_list@.map_values(|p: Vec<char>| p@)),
    ensures
        final(odm).completion_list == old(odm).completion_list,
        final(odm).prompt == old(odm).prompt,
        final(odm).error_msg == old(odm).error_msg,
        old(odm).completion_list@.len() == 0 || old(odm).error_msg is Some ==> r is None
            && final(odm).completion_index == old(odm).completion_index,
        !(old(odm).completion_list@.len() == 0 || old(odm).error_msg is Some) ==> {
            let i = (old(odm).completion_index + 1) % (old(odm).completion_list@.len() as int);
            &&& final(odm).completion_index == i
            &&& r == Some(completion_offset(old(odm).completion_list@.map_values(|p: Vec<char>| p@), i) as u64)
        },
{
    if odm.completion_list.len() == 0 {
        return None;
    }
    if odm.error_msg.is_some() {
        return None;
    }
    let n = odm.completion_list.len();
    odm.completion_index = if odm.completion_index < n {
        (odm.completion_index + 1) % n
    } else {
        ((odm.completion_index % n) + 1) % n
    };
    proof {
        let c = old(odm).completion_index as int;
        let nn = n as int;
        assert(((c % nn) + 1) % nn == (c + 1) % nn) by (nonlinear_arith)
            requires
                nn > 0,
                c >= 0,
        ;
    }
    Some(offset_of_completion(&odm.completion_list, odm.completion_index))
}

/// Selects the previous completion, before the first one the last; returns
/// the offset the completion view's mark goes to. Nothing is done when the
/// directory could not be read.
pub fn open_doc_controller_select_prev_completion(odm: &mut OpenDocModeContext) -> (r: Option<u64>)
    requires
        completions_fit(old(odm).completion_list@.map_values(|p: Vec<char>| p@)),
        old(odm).completion_index <= old(odm).completion_list@.len(),
    ensures
        final(odm).completion_list == old(odm).completion_list,
        final(odm).prompt == old(odm).prompt,
        final(odm).error_msg == old(odm).error_msg,
        old(odm).error_msg is Some ==> r is None && final(odm).completion_index == old(odm).completion_index,
        old(odm).error_msg is None ==> {
            let c = if old(odm).completion_index == 0 {
                old(odm).completion_list@.len() as int
            } else {
                old(odm).completion_index as int
            };
            let i = if c >= 1 {
                c - 1
            } else {
                0
            };
            &&& final(odm).completion_index == i
            &&& r == Some(completion_offset(old(odm).completion_list@.map_values(|p: Vec<char>| p@), i) as u64)
        },
{
    if odm.error_msg.is_some() {
        return None;
    }
    let c = if odm.completion_index == 0 {
        odm.completion_list.len()
    } else {
        odm.completion_index
    };
    odm.completion_index = if c >= 1 {
        c - 1
    } else {
        0
    };
    Some(offset_of_completion(&odm.completion_list, odm.completion_index))
}

/// Puts the current completion in the prompt and forgets the completions
/// (see `completion_prompt`); returns false when there are none.
pub fn open_doc_controller_apply_current_completion(odm: &mut OpenDocModeContext) -> (applied: bool)
    requires
        old(odm).completion_list@.len() > 0 ==> old(odm).completion_index < old(odm).completion_list@.len()
            && utf8_len(old(odm).completion_list@[old(odm).completion_index as int]@) <= usize::MAX,
    ensures
        applied == (old(odm).completion_list@.len() > 0),
        !applied ==> *final(odm) == *old(odm),
        applied ==> {
            &&& final(odm).prompt@ == completion_prompt(old(odm).completion_list@[old(odm).completion_index as int]@)
            &&& final(odm).revision == 0
            &&& final(odm).completion_list@.len() == 0
            &&& final(odm).completion_index == 0
            &&& final(odm).error_msg == old(odm).error_msg
        },
{
    if odm.completion_list.len() == 0 {
        return false;
    }
    let new_prompt = prompt_of_completion(&odm.completion_list[odm.completion_index]);
    odm.revision = 0;
    odm.completion_list = Vec::new();
    odm.completion_index = 0;
    odm.prompt = new_prompt;
    true
}

/// One step back in a path: its directory part (see `split_path`), less
/// its last separator when nothing followed it and more than a character
/// is left.
pub open spec fn path_back(s: Seq<char>, sep: char) -> Seq<char> {
    let (prefix, suffix) = split_path(s, sep);
    if suffix.len() == 0 && prefix.len() > 1 {
        prefix.drop_last()
    } else {
        prefix
    }
}

fn path_back_once(s: &Vec<char>, sep: char) -> (r: Vec<char>)
    ensures
        r@ == path_back(s@, sep),
{
    let (mut prefix, suffix) = split_prompt(s, sep);
    if suffix.len() == 0 && prefix.len() > 1 {
        prefix.pop();
        proof {
            assert(prefix@ =~= split_path(s@, sep).0.drop_last());
        }
    }
    prefix
}

/// Drops the last part of the path typed (twice when it ends with a
/// separator: the separator and the directory before it), and forgets the
/// completions.
pub fn open_doc_controller_discard_prompt_suffix(odm: &mut OpenDocModeContext, sep: char)
    ensures
        final(odm).prompt@ == if old(odm).prompt@.len() > 0 && old(odm).prompt@.last() == sep {
            path_back(path_back(old(odm).prompt@, sep), sep)
        } else {
            path_back(old(odm).prompt@, sep)
        },
        final(odm).revision == 0,
        final(odm).completion_list@.len() == 0,
        final(odm).completion_index == 0,
        final(odm).error_msg == old(odm).error_msg,
{
    odm.revision = 0;
    odm.completion_list = Vec::new();
    odm.completion_index = 0;
    let n = odm.prompt.len();
    let twice = n > 0 && odm.prompt[n - 1] == sep;
    let p1 = path_back_once(&odm.prompt, sep);
    if twice {
        odm.prompt = path_back_once(&p1, sep);
    } else {
        odm.prompt = p1;
    }
}

/// A key typed in the controller: a tabulation asks for the automatic
/// completion, another code point goes to the prompt. Returns whether the
/// completion is automatic; the completion index goes back to the first.
pub fn open_doc_controller_add_char(odm: &mut OpenDocModeContext, c: char) -> (auto_complete: bool)
    requires
        c != '\n',
    ensures
        auto_complete == (c == '\t'),
        final(odm).prompt@ == if c == '\t' {
            old(odm).prompt@
        } else {
            old(odm).prompt@.push(c)
        },
        final(odm).completion_index == 0,
        final(odm).completion_list == old(odm).completion_list,
        final(odm).error_msg == old(odm).error_msg,
{
    let auto_complete = c == '\t';
    if !auto_complete {
        odm.prompt.push(c);
    }
    odm.completion_index = 0;
    auto_complete
}

/// Removes the last code point typed, unless one at most is left; returns
/// whether it did.
pub fn open_doc_controller_del_char(odm: &mut OpenDocModeContext) -> (removed: bool)
    ensures
        removed == (old(odm).prompt@.len() > 1),
        !removed ==> *final(odm) == *old(odm),
        removed ==> final(odm).prompt@ == old(odm).prompt@.drop_last() && final(odm).completion_index == 0
            && final(odm).completion_list == old(odm).completion_list,
{
    if odm.prompt.len() <= 1 {
        return false;
    }
    odm.completion_index = 0;
    odm.prompt.pop();
    true
}

/// The prompt the controller shows: `Open: ` and the path typed, which
/// starts, when empty, as the working directory `cwd` and a separator.
pub open spec fn open_prompt(prompt: Seq<char>) -> Seq<u8> {
    encoded(&Utf8Codec {  }, seq!['O', 'p', 'e', 'n', ':', ' '] + prompt)
}

/// Shows the prompt in the controller's document `doc` (see
/// `open_prompt`).
pub fn open_doc_display_prompt(odm: &mut OpenDocModeContext, doc: &mut Buffer, cwd: &Vec<char>, sep: char)
    requires
        open_prompt(if old(odm).prompt@.len() == 0 {
            cwd@.push(sep)
        } else {
            old(odm).prompt@
        }).len() <= usize::MAX,
    ensures
        final(odm).prompt@ == if old(odm).prompt@.len() == 0 {
            cwd@.push(sep)
        } else {
            old(odm).prompt@
        },
        final(doc)@ == open_prompt(final(odm).prompt@),
        final(odm).completion_list == old(odm).completion_list,
        final(odm).completion_index == old(odm).completion_index,
        final(odm).error_msg == old(odm).error_msg,
{
    if odm.prompt.len() == 0 {
        let mut p = cwd.clone();
        assert(p@ =~= cwd@);
        p.push(sep);
        odm.prompt = p;
    }
    let head: Vec<char> = vec!['O', 'p', 'e', 'n', ':', ' '];
    assert(head@ =~= seq!['O', 'p', 'e', 'n', ':', ' ']);
    super::goto_line_mode::write_prompt(doc, head, &odm.prompt);
}

/// What the completion view shows: the message when the directory could
/// not be read, or the completions one after the other.
pub open spec fn completion_text(odm: OpenDocModeContext) -> Seq<char> {
    match odm.error_msg {
        Some(msg) => msg@,
        None => odm.completion_list@.map_values(|p: Vec<char>| p@).flatten(),
    }
}

/// Fills the completion view's document `doc` (see `completion_text`).
pub fn fill_completion_buffer(odm: &OpenDocModeContext, doc: &mut Buffer)
    requires
        utf8_len(completion_text(*odm)) <= usize::MAX,
    ensures
        final(doc)@ == encoded(&Utf8Codec {  }, completion_text(*odm)),
{
    let mut all: Vec<char> = Vec::new();
    match &odm.error_msg {
        Some(msg) => {
            all = msg.clone();
            assert(all@ =~= msg@);
        },
        None => {
            let ghost m = odm.completion_list@.map_values(|p: Vec<char>| p@);
            let n = odm.completion_list.len();
            let mut i: usize = 0;
            while i < n
                invariant
                    n == odm.completion_list@.len(),
                    m == odm.completion_list@.map_values(|p: Vec<char>| p@),
                    i <= n,
                    all@ == m.take(i as int).flatten(),
                decreases n - i,
            {
                let ghost before = all@;
                let e = &odm.completion_list[i];
                let k = e.len();
                let mut j: usize = 0;
                while j < k
                    invariant
                        k == e@.len(),
                        j <= k,
                        all@ == before + e@.take(j as int),
                    decreases k - j,
                {
                    all.push(e[j]);
                    j = j + 1;
                    assert(all@ =~= before + e@.take(j as int));
                }
                proof {
                    assert(e@.take(k as int) =~= e@);
                    assert(m.take(i + 1) =~= m.take(i as int).push(m[i as int]));
                    m.take(i as int).lemma_flatten_push(m[i as int]);
                }
                i = i + 1;
            }
            assert(m.take(n as int) =~= m);
        },
    }
    let codec = Utf8Codec::new();
    let bytes = encode_chars(&codec, &all);
    *doc = Buffer::from_bytes(bytes.as_slice());
}

/// The path a document is opened from: the prompt when there is no
/// completion, otherwise the selected completion without its last code
/// point (its line feed).
pub open spec fn load_path(odm: OpenDocModeContext) -> Seq<char> {
    if odm.completion_list@.len() == 0 {
        odm.prompt@
    } else {
        let c = odm.completion_list@[odm.completion_index as int]@;
        if c.len() > 0 {
            c.drop_last()
        } else {
            c
        }
    }
}

/// The path the document to open is read from (see `load_path`).
pub fn open_doc_load_path(odm: &OpenDocModeContext) -> (p: Vec<char>)
    requires
        odm.completion_list@.len() > 0 ==> odm.completion_index < odm.completion_list@.len(),
    ensures
        p@ == load_path(*odm),
{
    if odm.completion_list.len() == 0 {
        let mut p: Vec<char> = Vec::new();
        append_chars(&mut p, &odm.prompt);
        p
    } else {
        let c = &odm.completion_list[odm.completion_index];
        let mut p: Vec<char> = Vec::new();
        append_chars(&mut p, c);
        if p.len() > 0 {
            p.pop();
        }
        p
    }
}

/// Where the completion pop-up stands: above the status view (at `st_x`,
/// `st_y`, `st_w` wide and `st_h` high), as wide as it, over the height of
/// the root view (`root_h`) less the status view's.
pub fn completion_popup_rect(st_x: usize, st_y: usize, st_w: usize, st_h: usize, root_h: usize) -> (r: (
    usize,
    usize,
    usize,
    usize,
))
    ensures
        r.3 == (if root_h >= st_h {
            root_h - st_h
        } else {
            0
        }),
        r.0 == st_x,
        r.1 == (if st_y >= r.3 {
            st_y - r.3
        } else {
            0
        }),
        r.2 == st_w,
{
    let h = root_h.saturating_sub(st_h);
    let y = st_y.saturating_sub(h);
    (st_x, y, st_w, h)
}

} // verus!
