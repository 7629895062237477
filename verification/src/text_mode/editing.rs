//! The editing commands of the text mode: what they do to the document
//! and to the marks, selection points and copy buffer of a view, and the
//! actions they queue for the next layout.

use vstd::prelude::*;

use super::movement::{forward_offset, marks_within, push_if};
use super::text_mode::{CopyData, PostInputAction, TextModeAction, TextModeContext};
use crate::buffer::{inserted, lemma_read_after_insert, occurs_at, removal_size, removed, Buffer};
use crate::codec::{SyncDirection, TextCodec, Utf8Codec};
use crate::mark::{
    blank_in_line_class, char_backward, char_forward, eol_pattern, lemma_line_end_exists, lemma_utf8_forward_size,
    is_blank_byte, lemma_walk_forward, lemma_walk_forward_line_blanks, lemma_walk_forward_no_line_feed,
    lemma_walk_forward_non_blanks, spec_is_blank, spec_is_end_of_line, lemma_line_end_unique, line_end,
    non_blank_class, read4,
    read_window, walk_forward, Mark,
};
use crate::screen::screen::Screen;

verus! {

/// `s` without its repeated neighbours: of each run of equal marks, one
/// is kept.
pub open spec fn dedup_marks_spec(s: Seq<Mark>) -> Seq<Mark>
    decreases s.len(),
{
    if s.len() <= 1 {
        s
    } else {
        let r = dedup_marks_spec(s.drop_last());
        if s.last() == s[s.len() - 2] {
            r
        } else {
            r.push(s.last())
        }
    }
}

/// No two neighbours of `s` are equal.
pub open spec fn no_repeated_neighbours(s: Seq<Mark>) -> bool {
    forall|k: int| 0 < k < s.len() ==> #[trigger] s[k] != s[k - 1]
}

/// The kept marks end with the last one, and a sequence that is not empty
/// keeps one at least.
proof fn lemma_dedup_last(s: Seq<Mark>)
    requires
        s.len() > 0,
    ensures
        dedup_marks_spec(s).len() > 0,
        dedup_marks_spec(s).last() == s.last(),
        dedup_marks_spec(s).len() <= s.len(),
    decreases s.len(),
{
    if s.len() > 1 {
        lemma_dedup_last(s.drop_last());
    }
}

/// Removing repeated neighbours leaves no repeated neighbours, and doing
/// it again changes nothing.
pub proof fn lemma_dedup_idempotent(s: Seq<Mark>)
    ensures
        no_repeated_neighbours(dedup_marks_spec(s)),
        dedup_marks_spec(dedup_marks_spec(s)) == dedup_marks_spec(s),
    decreases s.len(),
{
    if s.len() > 1 {
        let p = s.drop_last();
        lemma_dedup_idempotent(p);
        lemma_dedup_last(p);
        let r = dedup_marks_spec(p);
        if s.last() != s[s.len() - 2] {
            let t = r.push(s.last());
            assert(s[s.len() - 2] == p.last());
            assert forall|k: int| 0 < k < t.len() implies #[trigger] t[k] != t[k - 1] by {
                if k < r.len() {
                    assert(t[k] == r[k] && t[k - 1] == r[k - 1]);
                }
            }
            lemma_dedup_of_clean(t);
        }
    } else {
        lemma_dedup_of_clean(s);
    }
}

/// A sequence without repeated neighbours is left as it is.
proof fn lemma_dedup_of_clean(s: Seq<Mark>)
    requires
        no_repeated_neighbours(s),
    ensures
        dedup_marks_spec(s) == s,
    decreases s.len(),
{
    if s.len() > 1 {
        let p = s.drop_last();
        assert forall|k: int| 0 < k < p.len() implies #[trigger] p[k] != p[k - 1] by {
            assert(s[k] != s[k - 1]);
        }
        lemma_dedup_of_clean(p);
        assert(s[s.len() - 1] != s[s.len() - 2]);
        assert(p.push(s.last()) =~= s);
    }
}

/// A sequence that is not empty keeps a mark at least.
pub proof fn lemma_dedup_nonempty(s: Seq<Mark>)
    requires
        s.len() > 0,
    ensures
        dedup_marks_spec(s).len() > 0,
{
    lemma_dedup_last(s);
}

/// Removes the repeated neighbours of `v`.
pub fn dedup_marks(v: &mut Vec<Mark>)
    ensures
        final(v)@ == dedup_marks_spec(old(v)@),
{
    let ghost s = v@;
    let n = v.len();
    if n <= 1 {
        return ;
    }
    let mut out: Vec<Mark> = Vec::new();
    out.push(v[0]);
    let mut i: usize = 1;
    assert(s.take(1).len() == 1);
    while i < n
        invariant
            n == s.len(),
            v@ == s,
            1 <= i <= n,
            out@ == dedup_marks_spec(s.take(i as int)),
        decreases n - i,
    {
        let prev = v[i - 1];
        let cur = v[i];
        proof {
            assert(s.take(i + 1).drop_last() =~= s.take(i as int));
        }
        if !(prev.offset == cur.offset) {
            out.push(cur);
        }
        i = i + 1;
    }
    assert(s.take(n as int) =~= s);
    *v = out;
}

/// What the text mode does with a queued action. Those that only touch
/// the marks and the selection points are done here, and `None` comes
/// back; those that lay the view out again, or that record the marks in
/// the document's history, come back for the caller to do (an action
/// that centers the view when the main mark is off screen comes back as
/// one that centers it, or as nothing when the screen shows the mark).
pub fn run_text_mode_action<C: TextCodec>(tm: &mut TextModeContext<C>, screen: &Screen, a: PostInputAction) -> (r:
    Option<PostInputAction>)
    requires
        screen.wf(),
        screen.covers_its_range(),
        a matches PostInputAction::ResetMarks ==> old(tm).mark_index < old(tm).marks@.len(),
    ensures
        final(tm).same_settings(*old(tm)),
        final(tm).copy_buffer == old(tm).copy_buffer,
        final(tm).pre_compose_action == old(tm).pre_compose_action,
        final(tm).prev_action == old(tm).prev_action,
        match a {
            PostInputAction::ResetMarks => {
                &&& r is None
                &&& final(tm).marks@ == seq![old(tm).marks@[old(tm).mark_index as int]]
                &&& final(tm).mark_index == 0
                &&& final(tm).select_point == old(tm).select_point
            },
            PostInputAction::CheckMarks => {
                &&& r is None
                &&& final(tm).marks@ == dedup_marks_spec(old(tm).marks@)
                &&& final(tm).mark_index == if final(tm).marks@.len() > 0 {
                    final(tm).marks@.len() - 1
                } else {
                    0
                }
                &&& final(tm).select_point == old(tm).select_point
            },
            PostInputAction::DeduplicateMarks { .. } | PostInputAction::DeduplicateAndSaveMarks { .. } => {
                &&& final(tm).marks@ == dedup_marks_spec(old(tm).marks@)
                &&& final(tm).select_point@ == dedup_marks_spec(old(tm).select_point@)
                &&& final(tm).mark_index == old(tm).mark_index
                &&& r == if a is DeduplicateMarks {
                    None
                } else {
                    Some(a)
                }
            },
            PostInputAction::CancelSelection => {
                &&& r is None
                &&& final(tm).marks == old(tm).marks
                &&& final(tm).mark_index == old(tm).mark_index
                &&& final(tm).select_point@.len() == 0
            },
            PostInputAction::CenterAroundMainMarkIfOffScreen => {
                &&& r == if old(tm).mark_index < old(tm).marks@.len() && !screen.offset_in_range(
                    old(tm).marks@[old(tm).mark_index as int].offset,
                ) {
                    Some(PostInputAction::CenterAroundMainMark)
                } else {
                    None::<PostInputAction>
                }
                &&& final(tm).marks == old(tm).marks
                &&& final(tm).mark_index == old(tm).mark_index
                &&& final(tm).select_point == old(tm).select_point
            },
            PostInputAction::UpdateReadCache | PostInputAction::MoveMarksToPreviousLine
            | PostInputAction::MoveMarkToPreviousLine { .. } => {
                &&& r is None
                &&& final(tm).marks == old(tm).marks
                &&& final(tm).mark_index == old(tm).mark_index
                &&& final(tm).select_point == old(tm).select_point
            },
            _ => {
                &&& r == Some(a)
                &&& final(tm).marks == old(tm).marks
                &&& final(tm).mark_index == old(tm).mark_index
                &&& final(tm).select_point == old(tm).select_point
            },
        },
{
    match a {
        PostInputAction::ResetMarks => {
            let offset = tm.marks[tm.mark_index].offset;
            tm.mark_index = 0;
            tm.marks.clear();
            tm.marks.push(Mark { offset });
            None
        },
        PostInputAction::CheckMarks => {
            dedup_marks(&mut tm.marks);
            tm.mark_index = if tm.marks.len() > 0 {
                tm.marks.len() - 1
            } else {
                0
            };
            None
        },
        PostInputAction::DeduplicateMarks { .. } => {
            dedup_marks(&mut tm.marks);
            dedup_marks(&mut tm.select_point);
            None
        },
        PostInputAction::DeduplicateAndSaveMarks { .. } => {
            dedup_marks(&mut tm.marks);
            dedup_marks(&mut tm.select_point);
            Some(a)
        },
        PostInputAction::CancelSelection => {
            tm.select_point.clear();
            None
        },
        PostInputAction::CenterAroundMainMarkIfOffScreen => {
            let mid = tm.mark_index;
            if mid < tm.marks.len() && !screen.contains_offset(tm.marks[mid].offset) {
                Some(PostInputAction::CenterAroundMainMark)
            } else {
                None
            }
        },
        PostInputAction::UpdateReadCache | PostInputAction::MoveMarksToPreviousLine
        | PostInputAction::MoveMarkToPreviousLine { .. } => None,
        _ => Some(a),
    }
}

/// Once the queued actions were run, the last mark is the main one.
pub fn end_text_mode_actions<C: TextCodec>(tm: &mut TextModeContext<C>)
    ensures
        final(tm).same_but_marks(*old(tm)),
        final(tm).marks == old(tm).marks,
        final(tm).mark_index == if old(tm).marks@.len() > 0 {
            old(tm).marks@.len() - 1
        } else {
            0
        },
        final(tm).pre_compose_action == old(tm).pre_compose_action,
        final(tm).prev_action == old(tm).prev_action,
{
    tm.mark_index = if tm.marks.len() > 0 {
        tm.marks.len() - 1
    } else {
        0
    };
}

/// The marks, the index of the main mark and the selection points once
/// the action `a` was done here (see `run_text_mode_action`).
pub open spec fn action_state(a: PostInputAction, st: (Seq<Mark>, int, Seq<Mark>)) -> (Seq<Mark>, int, Seq<Mark>) {
    let (marks, idx, sel) = st;
    match a {
        PostInputAction::ResetMarks => (seq![marks[idx]], 0, sel),
        PostInputAction::CheckMarks => {
            let d = dedup_marks_spec(marks);
            (d, if d.len() > 0 {
                d.len() - 1
            } else {
                0
            }, sel)
        },
        PostInputAction::DeduplicateMarks { .. } | PostInputAction::DeduplicateAndSaveMarks { .. } => (
            dedup_marks_spec(marks),
            idx,
            dedup_marks_spec(sel),
        ),
        PostInputAction::CancelSelection => (marks, idx, Seq::empty()),
        _ => st,
    }
}

/// What the action `a` leaves for the caller to do (see
/// `run_text_mode_action`).
pub open spec fn action_left(a: PostInputAction, st: (Seq<Mark>, int, Seq<Mark>), screen: Screen) -> Option<
    PostInputAction,
> {
    let (marks, idx, sel) = st;
    match a {
        PostInputAction::ResetMarks | PostInputAction::CheckMarks | PostInputAction::DeduplicateMarks { .. }
        | PostInputAction::CancelSelection | PostInputAction::UpdateReadCache
        | PostInputAction::MoveMarksToPreviousLine | PostInputAction::MoveMarkToPreviousLine { .. } => None,
        PostInputAction::CenterAroundMainMarkIfOffScreen => if 0 <= idx < marks.len()
            && !screen.offset_in_range(marks[idx].offset) {
            Some(PostInputAction::CenterAroundMainMark)
        } else {
            None
        },
        _ => Some(a),
    }
}

/// Running the actions from index `k` on: each is done in turn until one
/// is left for the caller. Gives the index after the last action run, the
/// action left (if any), and the marks, main mark index and selection
/// points then.
pub open spec fn actions_run(
    actions: Seq<PostInputAction>,
    k: int,
    st: (Seq<Mark>, int, Seq<Mark>),
    screen: Screen,
) -> (int, Option<PostInputAction>, (Seq<Mark>, int, Seq<Mark>))
    decreases actions.len() - k,
{
    if k < 0 || k >= actions.len() {
        (actions.len() as int, None, st)
    } else {
        let a = actions[k];
        let next = action_state(a, st);
        match action_left(a, st, screen) {
            Some(x) => (k + 1, Some(x), next),
            None => actions_run(actions, k + 1, next, screen),
        }
    }
}

/// Every mark reset met in the run from index `k` on finds the main mark
/// among the marks.
pub open spec fn actions_run_ok(
    actions: Seq<PostInputAction>,
    k: int,
    st: (Seq<Mark>, int, Seq<Mark>),
    screen: Screen,
) -> bool
    decreases actions.len() - k,
{
    if k < 0 || k >= actions.len() {
        true
    } else {
        let a = actions[k];
        &&& (a is ResetMarks ==> 0 <= st.1 < st.0.len())
        &&& match action_left(a, st, screen) {
            Some(_) => true,
            None => actions_run_ok(actions, k + 1, action_state(a, st), screen),
        }
    }
}

/// An action the text mode does by itself, leaving nothing to the caller.
pub open spec fn done_here(a: PostInputAction) -> bool {
    a is ResetMarks || a is CheckMarks || a is DeduplicateMarks || a is CancelSelection
        || a is UpdateReadCache || a is MoveMarksToPreviousLine || a is MoveMarkToPreviousLine
}

/// A list of actions that the text mode does by itself runs to its end,
/// leaving nothing to the caller.
pub proof fn lemma_actions_all_done_here(
    actions: Seq<PostInputAction>,
    k: int,
    st: (Seq<Mark>, int, Seq<Mark>),
    screen: Screen,
)
    requires
        0 <= k <= actions.len(),
        forall|i: int| k <= i < actions.len() ==> done_here(#[trigger] actions[i]),
    ensures
        actions_run(actions, k, st, screen).0 == actions.len(),
        actions_run(actions, k, st, screen).1 is None,
    decreases actions.len() - k,
{
    if k < actions.len() {
        assert(done_here(actions[k]));
        lemma_actions_all_done_here(actions, k + 1, action_state(actions[k], st), screen);
    }
}

/// Runs the queued `actions` from index `from` on, in order, until one is
/// left for the caller (see `actions_run`), which then runs it and calls
/// again from the index given back. Once every action ran, the last mark
/// is the main one (see `end_text_mode_actions`).
pub fn run_text_mode_actions_vec<C: TextCodec>(
    tm: &mut TextModeContext<C>,
    screen: &Screen,
    actions: &Vec<PostInputAction>,
    from: usize,
) -> (r: (usize, Option<PostInputAction>))
    requires
        from <= actions@.len(),
        screen.wf(),
        screen.covers_its_range(),
        actions_run_ok(
            actions@,
            from as int,
            (old(tm).marks@, old(tm).mark_index as int, old(tm).select_point@),
            *screen,
        ),
    ensures
        ({
            let res = actions_run(
                actions@,
                from as int,
                (old(tm).marks@, old(tm).mark_index as int, old(tm).select_point@),
                *screen,
            );
            &&& r.0 == res.0
            &&& r.1 == res.1
            &&& final(tm).marks@ == res.2.0
            &&& final(tm).select_point@ == res.2.2
            &&& final(tm).mark_index == if r.1 is None {
                if res.2.0.len() > 0 {
                    res.2.0.len() - 1
                } else {
                    0
                }
            } else {
                res.2.1
            }
        }),
        (forall|i: int| from <= i < actions@.len() ==> done_here(#[trigger] actions@[i])) ==> {
            &&& r == (actions@.len() as usize, None::<PostInputAction>)
            &&& final(tm).mark_index == if final(tm).marks@.len() > 0 {
                final(tm).marks@.len() - 1
            } else {
                0
            }
        },
        from == 0 && actions@ == seq![PostInputAction::CheckMarks] ==> {
            &&& r == (1usize, None::<PostInputAction>)
            &&& final(tm).marks@ == dedup_marks_spec(old(tm).marks@)
            &&& final(tm).select_point@ == old(tm).select_point@
        },
        from == 0 && actions@ == seq![PostInputAction::ResetMarks] ==> {
            &&& r == (1usize, None::<PostInputAction>)
            &&& final(tm).marks@ == seq![old(tm).marks@[old(tm).mark_index as int]]
            &&& final(tm).mark_index == 0
        },
        from == 0 && actions@ == seq![PostInputAction::CancelSelection] ==> {
            &&& r == (1usize, None::<PostInputAction>)
            &&& final(tm).marks@ == old(tm).marks@
            &&& final(tm).select_point@.len() == 0
        },
        final(tm).same_settings(*old(tm)),
        final(tm).copy_buffer == old(tm).copy_buffer,
        final(tm).pre_compose_action == old(tm).pre_compose_action,
        final(tm).prev_action == old(tm).prev_action,
{
    let ghost st0 = (tm.marks@, tm.mark_index as int, tm.select_point@);
    proof {
        if forall|i: int| from <= i < actions@.len() ==> done_here(#[trigger] actions@[i]) {
            lemma_actions_all_done_here(actions@, from as int, st0, *screen);
        }
        if from == 0 && actions@.len() == 1 {
            assert(actions_run(actions@, 1, action_state(actions@[0], st0), *screen).0 == 1);
        }
    }
    let n = actions.len();
    let mut k: usize = from;
    while k < n
        invariant
            n == actions@.len(),
            from <= k <= n,
            st0 == (old(tm).marks@, old(tm).mark_index as int, old(tm).select_point@),
            screen.wf(),
            screen.covers_its_range(),
            actions_run(actions@, from as int, st0, *screen) == actions_run(
                actions@,
                k as int,
                (tm.marks@, tm.mark_index as int, tm.select_point@),
                *screen,
            ),
            actions_run_ok(actions@, k as int, (tm.marks@, tm.mark_index as int, tm.select_point@), *screen),
            tm.same_settings(*old(tm)),
            tm.copy_buffer == old(tm).copy_buffer,
            tm.pre_compose_action == old(tm).pre_compose_action,
            tm.prev_action == old(tm).prev_action,
        decreases n - k,
    {
        let a = actions[k];
        let ghost st = (tm.marks@, tm.mark_index as int, tm.select_point@);
        let left = run_text_mode_action(tm, screen, a);
        proof {
            assert((tm.marks@, tm.mark_index as int, tm.select_point@) == action_state(a, st));
            assert(left == action_left(a, st, *screen));
        }
        k = k + 1;
        if left.is_some() {
            return (k, left);
        }
    }
    end_text_mode_actions(tm);
    (n, None)
}

/// Forgets the selection points.
pub fn cancel_selection<C: TextCodec>(tm: &mut TextModeContext<C>)
    ensures
        final(tm).same_settings(*old(tm)),
        final(tm).marks == old(tm).marks,
        final(tm).mark_index == old(tm).mark_index,
        final(tm).select_point@.len() == 0,
        final(tm).copy_buffer == old(tm).copy_buffer,
        final(tm).pre_compose_action == old(tm).pre_compose_action,
        final(tm).prev_action == old(tm).prev_action,
{
    tm.select_point.clear();
}

/// Puts a selection point at each mark, and queues the saving of the
/// marks.
pub fn set_selection_points_at_marks<C: TextCodec>(tm: &mut TextModeContext<C>)
    ensures
        final(tm).same_settings(*old(tm)),
        final(tm).marks == old(tm).marks,
        final(tm).mark_index == old(tm).mark_index,
        final(tm).select_point@ == old(tm).marks@,
        final(tm).copy_buffer == old(tm).copy_buffer,
        final(tm).pre_compose_action@ == old(tm).pre_compose_action@.push(
            PostInputAction::SaveMarks { caller: "set_selection_points_at_marks" },
        ),
        final(tm).prev_action == old(tm).prev_action,
{
    tm.select_point.clear();
    let ghost t0 = *tm;
    let n = tm.marks.len();
    let mut i: usize = 0;
    while i < n
        invariant
            tm.same_settings(t0),
            tm.marks == t0.marks,
            tm.mark_index == t0.mark_index,
            tm.copy_buffer == t0.copy_buffer,
            tm.pre_compose_action == t0.pre_compose_action,
            tm.prev_action == t0.prev_action,
            n == tm.marks@.len(),
            0 <= i <= n,
            tm.select_point@ == tm.marks@.take(i as int),
        decreases n - i,
    {
        let m = tm.marks[i];
        tm.select_point.push(m);
        i = i + 1;
        assert(tm.select_point@ =~= tm.marks@.take(i as int));
    }
    assert(tm.marks@.take(n as int) =~= tm.marks@);
    tm.pre_compose_action.push(PostInputAction::SaveMarks { caller: "set_selection_points_at_marks" });
}

/// Queues a scroll of three lines up.
pub fn scroll_up<C: TextCodec>(tm: &mut TextModeContext<C>)
    ensures
        final(tm).same_but_marks(*old(tm)),
        final(tm).marks == old(tm).marks,
        final(tm).mark_index == old(tm).mark_index,
        final(tm).pre_compose_action@ == old(tm).pre_compose_action@.push(PostInputAction::ScrollUp { n: 3 }),
        final(tm).prev_action == old(tm).prev_action,
{
    tm.pre_compose_action.push(PostInputAction::ScrollUp { n: 3 });
}

/// Queues a scroll of three lines down.
pub fn scroll_down<C: TextCodec>(tm: &mut TextModeContext<C>)
    ensures
        final(tm).same_but_marks(*old(tm)),
        final(tm).marks == old(tm).marks,
        final(tm).mark_index == old(tm).mark_index,
        final(tm).pre_compose_action@ == old(tm).pre_compose_action@.push(PostInputAction::ScrollDown { n: 3 }),
        final(tm).prev_action == old(tm).prev_action,
{
    tm.pre_compose_action.push(PostInputAction::ScrollDown { n: 3 });
}

/// Queues a scroll down by a screen of `height` lines, less one line (at
/// least one line).
pub fn scroll_to_next_screen<C: TextCodec>(tm: &mut TextModeContext<C>, height: usize)
    requires
        height >= 1,
    ensures
        final(tm).same_but_marks(*old(tm)),
        final(tm).marks == old(tm).marks,
        final(tm).mark_index == old(tm).mark_index,
        final(tm).pre_compose_action@ == old(tm).pre_compose_action@.push(
            PostInputAction::ScrollDown { n: if height - 1 > 1 { (height - 1) as usize } else { 1 } },
        ),
        final(tm).prev_action == old(tm).prev_action,
{
    let n = if height - 1 > 1 {
        height - 1
    } else {
        1
    };
    tm.pre_compose_action.push(PostInputAction::ScrollDown { n });
}

/// The state of a pass over the selected ranges: the document, the
/// marks, the selection points, the copies made, what was removed before
/// the current range, and the bytes removed and copied so far.
pub type SelPass = (Seq<u8>, Seq<Mark>, Seq<Mark>, Seq<Seq<u8>>, int, int, int);

/// The bytes a read of `n` bytes at `at` gets from `b`.
pub open spec fn read_range(b: Seq<u8>, at: int, n: int) -> Seq<u8> {
    let k = removal_size(b, at, n);
    if k == 0 {
        Seq::empty()
    } else {
        b.subrange(at, at + k)
    }
}

/// The pass over the first `i` ranges, each from a mark to its selection
/// point: each range is copied when `copy` and taken out of the document
/// when `remove`, the marks and points that follow moving back by what was
/// removed before them. `None` when a range cannot be taken: an offset
/// before what was removed already, a range longer than a `usize` counts,
/// or, when removing, a range that goes past the end of the document.
pub open spec fn sel_pass(
    buf: Seq<u8>,
    marks: Seq<Mark>,
    points: Seq<Mark>,
    copy: bool,
    remove: bool,
    i: nat,
) -> Option<SelPass>
    decreases i,
{
    if i == 0 {
        Some((buf, marks, points, Seq::empty(), 0, 0, 0))
    } else {
        match sel_pass(buf, marks, points, copy, remove, (i - 1) as nat) {
            None => None,
            Some(st) => {
                let (b, ms, ps, cs, shrink, rem, cop) = st;
                let k = i - 1;
                let mo = marks[k].offset - shrink;
                let po = points[k].offset - shrink;
                let lo = if mo <= po {
                    mo
                } else {
                    po
                };
                let size = if mo <= po {
                    po - mo
                } else {
                    mo - po
                };
                if mo < 0 || po < 0 || size > usize::MAX {
                    None
                } else {
                    let cs2 = if copy {
                        cs.push(read_range(b, lo, size))
                    } else {
                        cs
                    };
                    let cop2 = if copy {
                        cop + removal_size(b, lo, size)
                    } else {
                        cop
                    };
                    if remove {
                        if removal_size(b, lo, size) != size {
                            None
                        } else {
                            let rem2 = rem + size;
                            let m1 = if mo > po {
                                if mo >= rem2 {
                                    mo - rem2
                                } else {
                                    0
                                }
                            } else {
                                mo
                            };
                            Some(
                                (
                                    removed(b, lo, size),
                                    ms.update(k, Mark { offset: m1 as u64 }),
                                    ps.update(k, Mark { offset: po as u64 }),
                                    cs2,
                                    shrink + size,
                                    rem2,
                                    cop2,
                                ),
                            )
                        }
                    } else {
                        Some(
                            (
                                b,
                                ms.update(k, Mark { offset: mo as u64 }),
                                ps.update(k, Mark { offset: po as u64 }),
                                cs2,
                                shrink,
                                rem,
                                cop2,
                            ),
                        )
                    }
                }
            },
        }
    }
}

/// The pass goes through all the ranges, and the bytes it copies and
/// removes can be counted in a `usize`.
pub open spec fn sel_pass_ok(buf: Seq<u8>, marks: Seq<Mark>, points: Seq<Mark>, copy: bool, remove: bool) -> bool {
    sel_pass(buf, marks, points, copy, remove, marks.len()) matches Some(st) && st.5 + st.6 <= usize::MAX
}

/// A pass that goes through `j` ranges goes through the first `i`, and
/// its counters only grow.
proof fn lemma_sel_pass_prefix(
    buf: Seq<u8>,
    marks: Seq<Mark>,
    points: Seq<Mark>,
    copy: bool,
    remove: bool,
    i: nat,
    j: nat,
)
    requires
        i <= j,
        sel_pass(buf, marks, points, copy, remove, j) is Some,
    ensures
        sel_pass(buf, marks, points, copy, remove, i) is Some,
        ({
            let a = sel_pass(buf, marks, points, copy, remove, i)->0;
            let b = sel_pass(buf, marks, points, copy, remove, j)->0;
            &&& 0 <= a.4 <= b.4
            &&& 0 <= a.5 <= b.5
            &&& 0 <= a.6 <= b.6
        }),
    decreases j,
{
    if j > 0 {
        if i < j {
            lemma_sel_pass_prefix(buf, marks, points, copy, remove, i, (j - 1) as nat);
        } else {
            lemma_sel_pass_prefix(buf, marks, points, copy, remove, (j - 1) as nat, (j - 1) as nat);
        }
    }
}

/// The copy buffer holds the copies `copies`, in order.
pub open spec fn holds_copies(cb: Seq<CopyData>, copies: Seq<Seq<u8>>) -> bool {
    &&& cb.len() == copies.len()
    &&& forall|k: int|
        0 <= k < cb.len() ==> (#[trigger] cb[k] matches CopyData::Buffer(v) && v@ == copies[k])
}

/// Copies, when `copy`, and removes, when `remove`, the ranges between
/// each mark and its selection point; returns how many bytes were copied
/// and how many removed. The selection points are dropped when a byte was.
#[verifier::rlimit(40)]
#[verifier::spinoff_prover]
pub fn copy_maybe_remove_selection_symmetric<C: TextCodec>(
    tm: &mut TextModeContext<C>,
    buffer: &mut Buffer,
    copy: bool,
    remove: bool,
) -> (r: (usize, usize))
    requires
        old(tm).marks@.len() == old(tm).select_point@.len(),
        sel_pass_ok(old(buffer)@, old(tm).marks@, old(tm).select_point@, copy, remove),
    ensures
        final(tm).same_settings(*old(tm)),
        final(tm).mark_index == old(tm).mark_index,
        final(tm).pre_compose_action == old(tm).pre_compose_action,
        final(tm).prev_action == old(tm).prev_action,
        ({
            let st = sel_pass(old(buffer)@, old(tm).marks@, old(tm).select_point@, copy, remove, old(tm).marks@.len())->0;
            &&& final(buffer)@ == st.0
            &&& final(tm).marks@ == st.1
            &&& final(tm).select_point@ == if st.5 + st.6 > 0 {
                Seq::<Mark>::empty()
            } else {
                st.2
            }
            &&& copy ==> holds_copies(final(tm).copy_buffer@, st.3)
            &&& !copy ==> final(tm).copy_buffer == old(tm).copy_buffer
            &&& r == (st.6 as usize, st.5 as usize)
        }),
{
    let ghost b0 = buffer@;
    let ghost ms0 = tm.marks@;
    let ghost ps0 = tm.select_point@;
    let ghost t0 = *tm;
    let n = tm.marks.len();
    proof {
        lemma_sel_pass_prefix(b0, ms0, ps0, copy, remove, n as nat, n as nat);
    }
    if copy {
        tm.copy_buffer.clear();
    }
    let ghost mut copies: Seq<Seq<u8>> = Seq::empty();
    let mut nr_bytes_copied: usize = 0;
    let mut nr_bytes_removed: usize = 0;
    let mut shrink: u64 = 0;
    let mut i: usize = 0;
    while i < n
        invariant
            n == ms0.len(),
            n == ps0.len(),
            0 <= i <= n,
            tm.same_settings(t0),
            tm.mark_index == t0.mark_index,
            tm.pre_compose_action == t0.pre_compose_action,
            tm.prev_action == t0.prev_action,
            !copy ==> tm.copy_buffer == t0.copy_buffer,
            copy ==> holds_copies(tm.copy_buffer@, copies),
            sel_pass_ok(b0, ms0, ps0, copy, remove),
            tm.marks@.len() == n,
            tm.select_point@.len() == n,
            sel_pass(b0, ms0, ps0, copy, remove, i as nat) == Some(
                (
                    buffer@,
                    tm.marks@,
                    tm.select_point@,
                    copies,
                    shrink as int,
                    nr_bytes_removed as int,
                    nr_bytes_copied as int,
                ),
            ),
            forall|k: int| i <= k < n ==> #[trigger] tm.marks@[k] == ms0[k],
            forall|k: int| i <= k < n ==> #[trigger] tm.select_point@[k] == ps0[k],
        decreases n - i,
    {
        proof {
            lemma_sel_pass_prefix(b0, ms0, ps0, copy, remove, (i + 1) as nat, n as nat);
            lemma_sel_pass_prefix(b0, ms0, ps0, copy, remove, i as nat, (i + 1) as nat);
        }
        let mo = tm.marks[i].offset - shrink;
        let po = tm.select_point[i].offset - shrink;
        let lo = if mo <= po {
            mo
        } else {
            po
        };
        let size64 = if mo <= po {
            po - mo
        } else {
            mo - po
        };
        let data_size = size64 as usize;
        if copy {
            let mut data: Vec<u8> = Vec::new();
            let nr_read = buffer.read(lo, data_size, &mut data);
            proof {
                if nr_read > 0 {
                    assert(data@ =~= read_range(buffer@, lo as int, data_size as int));
                } else {
                    assert(data@ =~= read_range(buffer@, lo as int, data_size as int));
                }
                copies = copies.push(data@);
            }
            let ghost cb = tm.copy_buffer@;
            tm.copy_buffer.push(CopyData::Buffer(data));
            proof {
                assert forall|k: int| 0 <= k < tm.copy_buffer@.len() implies (
                #[trigger] tm.copy_buffer@[k] matches CopyData::Buffer(v) && v@ == copies[k]) by {
                    if k < cb.len() {
                        assert(tm.copy_buffer@[k] == cb[k]);
                    }
                }
            }
            nr_bytes_copied = nr_bytes_copied + nr_read;
        }
        if remove {
            let _nr_removed = buffer.remove(lo, data_size);
            shrink = shrink + size64;
            nr_bytes_removed = nr_bytes_removed + data_size;
            let m1 = if mo > po {
                if mo >= nr_bytes_removed as u64 {
                    mo - nr_bytes_removed as u64
                } else {
                    0
                }
            } else {
                mo
            };
            tm.marks.set(i, Mark { offset: m1 });
        } else {
            tm.marks.set(i, Mark { offset: mo });
        }
        tm.select_point.set(i, Mark { offset: po });
        i = i + 1;
    }
    if nr_bytes_copied + nr_bytes_removed > 0 {
        tm.select_point.clear();
    }
    (nr_bytes_copied, nr_bytes_removed)
}

/// Copies and removes the selected ranges when each mark has its
/// selection point; returns how many bytes were copied and removed in
/// all. Otherwise nothing is done.
pub fn copy_maybe_remove_selection<C: TextCodec>(
    tm: &mut TextModeContext<C>,
    buffer: &mut Buffer,
    copy: bool,
    remove: bool,
) -> (r: usize)
    requires
        old(tm).marks@.len() == old(tm).select_point@.len() ==> sel_pass_ok(old(buffer)@, old(tm).marks@, old(tm).select_point@, copy, remove),
    ensures
        final(tm).same_settings(*old(tm)),
        final(tm).mark_index == old(tm).mark_index,
        final(tm).pre_compose_action == old(tm).pre_compose_action,
        final(tm).prev_action == old(tm).prev_action,
        old(tm).marks@.len() != old(tm).select_point@.len() ==> r == 0 && *final(tm) == *old(tm)
            && final(buffer)@ == old(buffer)@,
        old(tm).marks@.len() == old(tm).select_point@.len() ==> {
            let st = sel_pass(old(buffer)@, old(tm).marks@, old(tm).select_point@, copy, remove, old(tm).marks@.len())->0;
            &&& final(buffer)@ == st.0
            &&& final(tm).marks@ == st.1
            &&& final(tm).select_point@ == if st.5 + st.6 > 0 {
                Seq::<Mark>::empty()
            } else {
                st.2
            }
            &&& copy ==> holds_copies(final(tm).copy_buffer@, st.3)
            &&& !copy ==> final(tm).copy_buffer == old(tm).copy_buffer
            &&& r == st.5 + st.6
        },
{
    if tm.marks.len() == tm.select_point.len() {
        proof {
            let n = tm.marks@.len();
            lemma_sel_pass_prefix(buffer@, tm.marks@, tm.select_point@, copy, remove, n, n);
        }
        let (copied, removed) = copy_maybe_remove_selection_symmetric(tm, buffer, copy, remove);
        copied + removed
    } else {
        0
    }
}

/// Copies the selected ranges to the copy buffer.
pub fn copy_selection<C: TextCodec>(tm: &mut TextModeContext<C>, buffer: &mut Buffer)
    requires
        old(tm).marks@.len() == old(tm).select_point@.len() ==> sel_pass_ok(old(buffer)@, old(tm).marks@, old(tm).select_point@, true, false),
    ensures
        final(buffer)@ == old(buffer)@,
        final(tm).same_settings(*old(tm)),
        final(tm).mark_index == old(tm).mark_index,
        final(tm).pre_compose_action == old(tm).pre_compose_action,
        old(tm).marks@.len() != old(tm).select_point@.len() ==> *final(tm) == *old(tm),
        old(tm).marks@.len() == old(tm).select_point@.len() ==> {
            let st = sel_pass(old(buffer)@, old(tm).marks@, old(tm).select_point@, true, false, old(tm).marks@.len())->0;
            &&& final(tm).marks@ == old(tm).marks@
            &&& holds_copies(final(tm).copy_buffer@, st.3)
        },
{
    proof {
        if tm.marks@.len() == tm.select_point@.len() {
            lemma_sel_pass_keeps(buffer@, tm.marks@, tm.select_point@, tm.marks@.len());
        }
    }
    copy_maybe_remove_selection(tm, buffer, true, false);
}

/// Copies the selected ranges to the copy buffer and removes them.
pub fn cut_selection<C: TextCodec>(tm: &mut TextModeContext<C>, buffer: &mut Buffer)
    requires
        old(tm).marks@.len() == old(tm).select_point@.len() ==> sel_pass_ok(old(buffer)@, old(tm).marks@, old(tm).select_point@, true, true),
    ensures
        final(tm).same_settings(*old(tm)),
        final(tm).mark_index == old(tm).mark_index,
        final(tm).pre_compose_action == old(tm).pre_compose_action,
        old(tm).marks@.len() != old(tm).select_point@.len() ==> *final(tm) == *old(tm) && final(buffer)@
            == old(buffer)@,
        old(tm).marks@.len() == old(tm).select_point@.len() ==> {
            let st = sel_pass(old(buffer)@, old(tm).marks@, old(tm).select_point@, true, true, old(tm).marks@.len())->0;
            &&& final(buffer)@ == st.0
            &&& final(tm).marks@ == st.1
            &&& holds_copies(final(tm).copy_buffer@, st.3)
        },
{
    copy_maybe_remove_selection(tm, buffer, true, true);
}

/// A pass that only copies leaves the document, the marks and the points
/// as they are.
proof fn lemma_sel_pass_keeps(buf: Seq<u8>, marks: Seq<Mark>, points: Seq<Mark>, i: nat)
    requires
        i <= marks.len(),
        i <= points.len(),
        sel_pass(buf, marks, points, true, false, i) is Some,
    ensures
        ({
            let st = sel_pass(buf, marks, points, true, false, i)->0;
            &&& st.0 == buf
            &&& st.1 == marks
            &&& st.2 == points
            &&& st.4 == 0
        }),
    decreases i,
{
    if i > 0 {
        lemma_sel_pass_prefix(buf, marks, points, true, false, (i - 1) as nat, i);
        lemma_sel_pass_keeps(buf, marks, points, (i - 1) as nat);
        let st = sel_pass(buf, marks, points, true, false, (i - 1) as nat)->0;
        assert(st.1.update(i - 1, Mark { offset: (marks[i - 1].offset - 0) as u64 }) =~= marks);
        assert(st.2.update(i - 1, Mark { offset: (points[i - 1].offset - 0) as u64 }) =~= points);
    }
}

/// The document, the marks and the selection points once the selected
/// ranges were removed, when each mark has its selection point; the
/// points are dropped when a byte was removed.
pub open spec fn selection_removed(buf: Seq<u8>, marks: Seq<Mark>, points: Seq<Mark>) -> (Seq<u8>, Seq<Mark>, Seq<Mark>) {
    if marks.len() == points.len() {
        let st = sel_pass(buf, marks, points, false, true, marks.len())->0;
        (st.0, st.1, if st.5 + st.6 > 0 {
            Seq::empty()
        } else {
            st.2
        })
    } else {
        (buf, marks, points)
    }
}

/// The selected ranges can be removed (see `sel_pass_ok`).
pub open spec fn selection_removable(buf: Seq<u8>, marks: Seq<Mark>, points: Seq<Mark>) -> bool {
    marks.len() == points.len() ==> sel_pass_ok(buf, marks, points, false, true)
}

/// The bytes that encode the code points `s`, one after the other.
pub open spec fn encoded<C: TextCodec>(codec: &C, s: Seq<char>) -> Seq<u8>
    decreases s.len(),
{
    if s.len() == 0 {
        Seq::empty()
    } else {
        encoded(codec, s.drop_last()) + codec.spec_encode(s.last() as u32)
    }
}

/// Encodes the code points of `array` one after the other.
pub(crate) fn encode_chars<C: TextCodec>(codec: &C, array: &Vec<char>) -> (v: Vec<u8>)
    requires
        encoded(codec, array@).len() <= usize::MAX,
    ensures
        v@ == encoded(codec, array@),
{
    let mut out: Vec<u8> = Vec::new();
    let n = array.len();
    let mut i: usize = 0;
    while i < n
        invariant
            n == array@.len(),
            0 <= i <= n,
            out@ == encoded(codec, array@.take(i as int)),
        decreases n - i,
    {
        proof {
            assert(array@.take(i + 1).drop_last() =~= array@.take(i as int));
        }
        let mut data: [u8; 4] = [0; 4];
        let c = array[i];
        let sz = codec.encode(c as u32, &mut data);
        let mut j: usize = 0;
        let ghost before = out@;
        while j < sz
            invariant
                j <= sz,
                sz <= 4,
                data@.subrange(0, sz as int) == codec.spec_encode(c as u32),
                out@ == before + data@.subrange(0, j as int),
            decreases sz - j,
        {
            out.push(data[j]);
            j = j + 1;
            assert(out@ =~= before + data@.subrange(0, j as int));
        }
        i = i + 1;
    }
    assert(array@.take(n as int) =~= array@);
    out
}

/// The document `b` once `d` was inserted at each mark of `marks`, in
/// order, each mark moved by what was inserted before it.
pub open spec fn inserted_at_marks(b: Seq<u8>, marks: Seq<Mark>, d: Seq<u8>) -> Seq<u8>
    decreases marks.len(),
{
    if marks.len() == 0 {
        b
    } else {
        let prev = inserted_at_marks(b, marks.drop_last(), d);
        let p = marks.last().offset + (marks.len() - 1) * d.len();
        if p <= prev.len() {
            inserted(prev, p, d)
        } else {
            prev
        }
    }
}

/// How many of the marks lie before `o`.
pub open spec fn count_before(marks: Seq<Mark>, o: u64) -> nat
    decreases marks.len(),
{
    if marks.len() == 0 {
        0
    } else {
        count_before(marks.drop_last(), o) + if marks.last().offset < o {
            1nat
        } else {
            0nat
        }
    }
}

proof fn lemma_inserted_len(b: Seq<u8>, marks: Seq<Mark>, d: Seq<u8>)
    ensures
        inserted_at_marks(b, marks, d).len() <= b.len() + marks.len() * d.len(),
        count_before(marks, 0) == 0,
    decreases marks.len(),
{
    if marks.len() > 0 {
        lemma_inserted_len(b, marks.drop_last(), d);
        assert((marks.len() - 1) * d.len() + d.len() == marks.len() * d.len()) by (nonlinear_arith);
    }
}

/// The main-mark check after a change: the view is centered when the
/// screen does not show the offset `o`, or when more than a screen of
/// code points was typed.
pub open spec fn center_after_insert(screen: Screen, o: u64, typed: nat) -> bool {
    !screen.offset_in_range(o) || typed > screen.spec_width() * screen.spec_height()
}

/// The marks and selection points once the marks were saved before a
/// change: repeated neighbours are dropped when the last action moved the
/// marks or changed the document.
pub open spec fn marks_saved<C: TextCodec>(tm: TextModeContext<C>) -> (Seq<Mark>, Seq<Mark>) {
    if tm.prev_action == TextModeAction::MarksMove || tm.prev_action == TextModeAction::DocumentModification {
        (dedup_marks_spec(tm.marks@), dedup_marks_spec(tm.select_point@))
    } else {
        (tm.marks@, tm.select_point@)
    }
}

/// Inserts the code points `array` at every mark, once the selected
/// ranges are removed; each mark moves after what it inserted, the view
/// starts that much later for each mark before it, and the view is
/// centered on the main mark when the screen cannot show the change.
///
/// Before the change the marks are saved: when the last action moved the
/// marks or changed the document, repeated marks and selection points
/// are dropped (and the caller records them in the document's history).
pub fn insert_codepoint_array<C: TextCodec>(
    tm: &mut TextModeContext<C>,
    buffer: &mut Buffer,
    screen: &Screen,
    start_offset: &mut u64,
    array: &Vec<char>,
)
    requires
        screen.wf(),
        screen.covers_its_range(),
        screen.spec_width() * screen.spec_height() <= usize::MAX,
        encoded(&old(tm).text_codec, array@).len() <= usize::MAX,
        ({
            let (m1, p1) = marks_saved(*old(tm));
            let (b2, m2, p2) = selection_removed(old(buffer)@, m1, p1);
            let l = encoded(&old(tm).text_codec, array@).len();
            &&& selection_removable(old(buffer)@, m1, p1)
            &&& b2.len() + m2.len() * l <= usize::MAX
            &&& *old(start_offset) + m2.len() * l <= u64::MAX
            &&& forall|k: int| 0 <= k < m2.len() ==> #[trigger] m2[k].offset + m2.len() * l <= u64::MAX
        }),
    ensures
        final(tm).same_settings(*old(tm)),
        final(tm).copy_buffer == old(tm).copy_buffer,
        final(tm).mark_index == old(tm).mark_index,
        final(tm).prev_action == TextModeAction::DocumentModification,
        ({
            let (m1, p1) = marks_saved(*old(tm));
            let (b2, m2, p2) = selection_removed(old(buffer)@, m1, p1);
            let d = encoded(&old(tm).text_codec, array@);
            let last = if m2.len() > 0 {
                (m2.last().offset + m2.len() * d.len()) as u64
            } else {
                0u64
            };
            &&& final(buffer)@ == inserted_at_marks(b2, m2, d)
            &&& final(tm).marks@.len() == m2.len()
            &&& forall|k: int|
                0 <= k < m2.len() ==> #[trigger] final(tm).marks@[k].offset == m2[k].offset + (k + 1)
                    * d.len()
            &&& final(tm).select_point@ == p2
            &&& *final(start_offset) == *old(start_offset) + d.len() * count_before(m2, *old(start_offset))
            &&& final(tm).pre_compose_action@ == push_if(
                old(tm).pre_compose_action@,
                center_after_insert(*screen, last, array@.len()),
                PostInputAction::CenterAroundMainMark,
            ).push(PostInputAction::CancelSelection)
        }),
{
    let save = tm.prev_action == TextModeAction::MarksMove || tm.prev_action
        == TextModeAction::DocumentModification;
    if save {
        dedup_marks(&mut tm.marks);
        dedup_marks(&mut tm.select_point);
    }
    let ghost m1 = tm.marks@;
    let ghost p1 = tm.select_point@;
    let ghost b1 = buffer@;
    proof {
        if m1.len() == p1.len() {
            lemma_sel_pass_prefix(b1, m1, p1, false, true, m1.len(), m1.len());
        }
    }
    copy_maybe_remove_selection(tm, buffer, false, true);
    let ghost b2 = buffer@;
    let ghost m2 = tm.marks@;
    let view_start = *start_offset;
    let ghost d = encoded(&tm.text_codec, array@);
    proof {
        lemma_inserted_len(b2, m2, d);
        assert(d.len() <= m2.len() * d.len() || m2.len() == 0) by (nonlinear_arith)
            requires
                true,
        ;
    }
    let utf8 = encode_chars(&tm.text_codec, array);
    let len = utf8.len();
    tm.prev_action = TextModeAction::DocumentModification;
    let n = tm.marks.len();
    let ghost t0 = *tm;
    let mut view_growth: u64 = 0;
    let mut offset: u64 = 0;
    let mut grow: u64 = 0;
    let mut i: usize = 0;
    proof {
        assert(m2.take(0) =~= Seq::<Mark>::empty());
        assert(count_before(m2.take(0), view_start) == 0);
        assert(len * 0 == 0) by (nonlinear_arith);
    }
    while i < n
        invariant
            n == m2.len(),
            tm.marks@.len() == n,
            0 <= i <= n,
            len == d.len(),
            utf8@ == d,
            tm.same_but_marks(t0),
            tm.pre_compose_action == t0.pre_compose_action,
            tm.mark_index == t0.mark_index,
            tm.prev_action == t0.prev_action,
            b2.len() + n * len <= usize::MAX,
            forall|k: int| 0 <= k < n ==> #[trigger] m2[k].offset + n * len <= u64::MAX,
            view_start + n * len <= u64::MAX,
            grow == i * len,
            view_growth == len * count_before(m2.take(i as int), view_start),
            view_growth <= i * len,
            buffer@ == inserted_at_marks(b2, m2.take(i as int), d),
            buffer@.len() <= b2.len() + i * len,
            forall|k: int| i <= k < n ==> #[trigger] tm.marks@[k] == m2[k],
            forall|k: int| 0 <= k < i ==> #[trigger] tm.marks@[k].offset == m2[k].offset + (k + 1) * len,
            i > 0 ==> offset == m2[i - 1].offset + i * len,
            i == 0 ==> offset == 0,
        decreases n - i,
    {
        proof {
            assert(m2.take(i + 1).drop_last() =~= m2.take(i as int));
            assert((i + 1) * len <= n * len) by (nonlinear_arith)
                requires
                    i + 1 <= n,
            ;
            assert((i + 1) * len == i * len + len) by (nonlinear_arith);
            assert(len * count_before(m2.take(i as int), view_start) <= i * len) by {
                lemma_count_before_le(m2.take(i as int), view_start);
                assert(count_before(m2.take(i as int), view_start) <= i);
                assert(len * count_before(m2.take(i as int), view_start) <= len * i) by (nonlinear_arith)
                    requires
                        count_before(m2.take(i as int), view_start) <= i,
                ;
                assert(len * i == i * len) by (nonlinear_arith);
            }
        }
        let m = tm.marks[i];
        if m.offset < view_start {
            view_growth = view_growth + len as u64;
        }
        let at = m.offset + grow;
        buffer.insert(at, len, utf8.as_slice());
        let new_offset = at + len as u64;
        tm.marks.set(i, Mark { offset: new_offset });
        offset = new_offset;
        grow = grow + len as u64;
        proof {
            assert(utf8@.subrange(0, len as int) =~= d);
            let c0 = count_before(m2.take(i as int), view_start);
            let c1 = count_before(m2.take(i + 1), view_start);
            assert(m2.take(i + 1).last() == m2[i as int]);
            if m2[i as int].offset < view_start {
                assert(c1 == c0 + 1);
                assert(len * c1 == len * c0 + len) by (nonlinear_arith)
                    requires
                        c1 == c0 + 1,
                ;
            } else {
                assert(c1 == c0);
            }
        }
        i = i + 1;
    }
    assert(m2.take(n as int) =~= m2);
    assert(view_growth <= n * len);
    *start_offset = *start_offset + view_growth;
    let center = !screen.contains_offset(offset) || array.len() > screen.width() * screen.height();
    if center {
        tm.pre_compose_action.push(PostInputAction::CenterAroundMainMark);
    }
    tm.pre_compose_action.push(PostInputAction::CancelSelection);
}

proof fn lemma_count_before_le(marks: Seq<Mark>, o: u64)
    ensures
        count_before(marks, o) <= marks.len(),
    decreases marks.len(),
{
    if marks.len() > 0 {
        lemma_count_before_le(marks.drop_last(), o);
    }
}

/// The marks are in order.
pub open spec fn marks_sorted(marks: Seq<Mark>) -> bool {
    forall|i: int, j: int| 0 <= i <= j < marks.len() ==> #[trigger] marks[i].offset <= #[trigger] marks[j].offset
}

/// With the marks in order and in the document, inserting `d` at every
/// mark grows the document by `d` for each mark, and reading just before
/// each moved mark gives `d` back.
pub proof fn lemma_insert_at_marks_reads_back(b: Seq<u8>, marks: Seq<Mark>, d: Seq<u8>)
    requires
        marks_sorted(marks),
        marks_within(marks, b.len()),
    ensures
        inserted_at_marks(b, marks, d).len() == b.len() + marks.len() * d.len(),
        forall|k: int|
            0 <= k < marks.len() ==> #[trigger] inserted_at_marks(b, marks, d).subrange(
                marks[k].offset + k * d.len(),
                marks[k].offset + (k + 1) * d.len(),
            ) == d,
    decreases marks.len(),
{
    let n = marks.len();
    let l = d.len();
    if n > 0 {
        let p = marks.drop_last();
        assert(marks_sorted(p));
        assert(marks_within(p, b.len())) by {
            assert forall|k: int| 0 <= k < p.len() implies #[trigger] p[k].offset <= b.len() by {
                assert(p[k] == marks[k]);
            }
        }
        lemma_insert_at_marks_reads_back(b, p, d);
        let prev = inserted_at_marks(b, p, d);
        let q = marks.last().offset + (n - 1) * l;
        assert(marks.last().offset <= b.len());
        assert(q <= prev.len());
        assert((n - 1) * l + l == n * l) by (nonlinear_arith);
        let cur = inserted(prev, q, d);
        assert(cur == inserted_at_marks(b, marks, d));
        lemma_read_after_insert(prev, q, d);
        assert forall|k: int| 0 <= k < n implies #[trigger] cur.subrange(
            marks[k].offset + k * l,
            marks[k].offset + (k + 1) * l,
        ) == d by {
            assert((k + 1) * l == k * l + l) by (nonlinear_arith);
            if k < n - 1 {
                assert(p[k] == marks[k]);
                assert(marks[k].offset <= marks[n - 1].offset);
                assert((k + 1) * l <= (n - 1) * l) by (nonlinear_arith)
                    requires
                        k + 1 <= n - 1,
                        l >= 0,
                ;
                assert(0 <= k * l) by (nonlinear_arith)
                    requires
                        k >= 0,
                        l >= 0,
                ;
                let a = marks[k].offset + k * l;
                let e = marks[k].offset + (k + 1) * l;
                assert(prev.subrange(a, e) == d);
                assert(cur.subrange(a, e) =~= prev.subrange(a, e)) by {
                    assert(cur.subrange(0, q) == prev.subrange(0, q));
                    assert forall|t: int| 0 <= t < e - a implies cur.subrange(a, e)[t] == prev.subrange(a, e)[t] by {
                        assert(cur.subrange(0, q)[a + t] == prev.subrange(0, q)[a + t]);
                    }
                }
            }
        }
    }
}

/// The size of the code point read forward at `o` (0 at the end).
pub open spec fn fwd_size<C: TextCodec>(codec: &C, buf: Seq<u8>, o: int) -> int {
    codec.spec_decode(SyncDirection::Forward, read_window(buf, o), 0).2 as int
}

/// Reads the size of the code point at `o`.
fn read_size<C: TextCodec>(codec: &C, buffer: &Buffer, o: u64) -> (n: usize)
    ensures
        n == fwd_size(codec, buffer@, o as int),
        n <= 4,
{
    let data = read4(buffer, o);
    let (_, _, size) = codec.decode(SyncDirection::Forward, data.as_slice(), 0);
    size
}

/// The pass of `remove_codepoint` over the first `i` marks: the document,
/// the marks, the bytes removed before the next mark, and the bytes
/// removed before the start `view_start` of the view. Each mark, moved back
/// by what was removed before it (unless that is more than its offset),
/// loses the code point at it.
pub open spec fn del_pass<C: TextCodec>(
    codec: &C,
    buf: Seq<u8>,
    marks: Seq<Mark>,
    view_start: u64,
    i: nat,
) -> (Seq<u8>, Seq<Mark>, int, int)
    decreases i,
{
    if i == 0 {
        (buf, marks, 0, 0)
    } else {
        let (b, ms, shrink, vs) = del_pass(codec, buf, marks, view_start, (i - 1) as nat);
        let o = marks[i - 1].offset;
        let o1 = if o >= shrink {
            o - shrink
        } else {
            o as int
        };
        let size = fwd_size(codec, b, o1);
        (
            removed(b, o1, size),
            ms.update(i - 1, Mark { offset: o1 as u64 }),
            shrink + removal_size(b, o1, size),
            vs + if o1 < view_start {
                size
            } else {
                0
            },
        )
    }
}

proof fn lemma_del_pass_step<C: TextCodec>(codec: &C, buf: Seq<u8>, marks: Seq<Mark>, view_start: u64, i: nat)
    requires
        i <= marks.len(),
    ensures
        ({
            let a = del_pass(codec, buf, marks, view_start, i);
            &&& a.2 + a.0.len() == buf.len()
            &&& a.1.len() == marks.len()
            &&& a.2 >= 0
            &&& a.3 >= 0
            &&& i > 0 ==> del_pass(codec, buf, marks, view_start, (i - 1) as nat).3 <= a.3
        }),
    decreases i,
{
    if i > 0 {
        lemma_del_pass_step(codec, buf, marks, view_start, (i - 1) as nat);
    }
}

proof fn lemma_del_pass_grows<C: TextCodec>(codec: &C, buf: Seq<u8>, marks: Seq<Mark>, view_start: u64, i: nat, j: nat)
    requires
        i <= j <= marks.len(),
    ensures
        ({
            let a = del_pass(codec, buf, marks, view_start, i);
            let b = del_pass(codec, buf, marks, view_start, j);
            &&& 0 <= a.3 <= b.3
            &&& a.2 + a.0.len() == buf.len()
            &&& a.1.len() == marks.len()
            &&& a.2 >= 0
        }),
    decreases j,
{
    lemma_del_pass_step(codec, buf, marks, view_start, i);
    lemma_del_pass_step(codec, buf, marks, view_start, j);
    if i < j {
        lemma_del_pass_grows(codec, buf, marks, view_start, i, (j - 1) as nat);
    }
}

/// Removes the code point at every mark, once the selected ranges are
/// removed (nothing more is done when that removed a byte); the view
/// starts earlier by what was removed before it.
pub fn remove_codepoint<C: TextCodec>(tm: &mut TextModeContext<C>, buffer: &mut Buffer, start_offset: &mut u64)
    requires
        selection_removable(old(buffer)@, old(tm).marks@, old(tm).select_point@),
        ({
            let (b2, m2, p2) = selection_removed(old(buffer)@, old(tm).marks@, old(tm).select_point@);
            del_pass(&old(tm).text_codec, b2, m2, *old(start_offset), m2.len()).3 <= *old(start_offset)
        }),
    ensures
        final(tm).same_settings(*old(tm)),
        final(tm).copy_buffer == old(tm).copy_buffer,
        final(tm).mark_index == old(tm).mark_index,
        final(tm).prev_action == old(tm).prev_action,
        ({
            let (b2, m2, p2) = selection_removed(old(buffer)@, old(tm).marks@, old(tm).select_point@);
            let sel = old(buffer)@.len() - b2.len();
            let st = del_pass(&old(tm).text_codec, b2, m2, *old(start_offset), m2.len());
            &&& final(tm).select_point@ == p2
            &&& if sel > 0 || b2.len() == 0 {
                &&& final(buffer)@ == b2
                &&& final(tm).marks@ == m2
                &&& *final(start_offset) == *old(start_offset)
                &&& final(tm).pre_compose_action == old(tm).pre_compose_action
            } else {
                &&& final(buffer)@ == st.0
                &&& final(tm).marks@ == st.1
                &&& *final(start_offset) == *old(start_offset) - st.3
                &&& final(tm).pre_compose_action@ == old(tm).pre_compose_action@.push(
                    PostInputAction::CheckMarks,
                ).push(PostInputAction::CancelSelection)
            }
        }),
{
    let ghost b0 = buffer@;
    proof {
        if tm.marks@.len() == tm.select_point@.len() {
            let n = tm.marks@.len();
            lemma_sel_pass_prefix(buffer@, tm.marks@, tm.select_point@, false, true, n, n);
            let st = sel_pass(buffer@, tm.marks@, tm.select_point@, false, true, n)->0;
            lemma_sel_pass_removes(buffer@, tm.marks@, tm.select_point@, n);
        }
    }
    if copy_maybe_remove_selection(tm, buffer, false, true) > 0 {
        return ;
    }
    let view_start = *start_offset;
    if buffer.size() == 0 {
        return ;
    }
    let ghost b2 = buffer@;
    let ghost m2 = tm.marks@;
    let ghost t0 = *tm;
    let n = tm.marks.len();
    proof {
        lemma_del_pass_grows(&tm.text_codec, b2, m2, view_start, n as nat, n as nat);
        b2.len();
        buffer.lemma_size_bound();
    }
    let mut shrink: u64 = 0;
    let mut view_shrink: u64 = 0;
    let mut i: usize = 0;
    while i < n
        invariant
            n == m2.len(),
            0 <= i <= n,
            tm.same_but_marks(t0),
            tm.pre_compose_action == t0.pre_compose_action,
            tm.mark_index == t0.mark_index,
            tm.prev_action == t0.prev_action,
            b2.len() <= usize::MAX,
            del_pass(&tm.text_codec, b2, m2, view_start, n as nat).3 <= view_start,
            del_pass(&tm.text_codec, b2, m2, view_start, i as nat) == (
                buffer@,
                tm.marks@,
                shrink as int,
                view_shrink as int,
            ),
            forall|k: int| i <= k < n ==> #[trigger] tm.marks@[k] == m2[k],
        decreases n - i,
    {
        proof {
            lemma_del_pass_grows(&tm.text_codec, b2, m2, view_start, (i + 1) as nat, n as nat);
            lemma_del_pass_grows(&tm.text_codec, b2, m2, view_start, i as nat, i as nat);
        }
        let o = tm.marks[i].offset;
        let o1 = if o >= shrink {
            o - shrink
        } else {
            o
        };
        let size = read_size(&tm.text_codec, buffer, o1);
        if o1 < view_start {
            view_shrink = view_shrink + size as u64;
        }
        let nr_removed = buffer.remove(o1, size);
        shrink = shrink + nr_removed as u64;
        tm.marks.set(i, Mark { offset: o1 });
        i = i + 1;
    }
    *start_offset = *start_offset - view_shrink;
    tm.pre_compose_action.push(PostInputAction::CheckMarks);
    tm.pre_compose_action.push(PostInputAction::CancelSelection);
}

/// A pass that removes takes out of the document the bytes it counts.
proof fn lemma_sel_pass_removes(buf: Seq<u8>, marks: Seq<Mark>, points: Seq<Mark>, i: nat)
    requires
        sel_pass(buf, marks, points, false, true, i) is Some,
    ensures
        ({
            let st = sel_pass(buf, marks, points, false, true, i)->0;
            &&& st.0.len() + st.5 == buf.len()
            &&& st.6 == 0
        }),
    decreases i,
{
    if i > 0 {
        lemma_sel_pass_prefix(buf, marks, points, false, true, (i - 1) as nat, i);
        lemma_sel_pass_removes(buf, marks, points, (i - 1) as nat);
    }
}

/// The pass of `remove_previous_codepoint` over the first `i` marks: the
/// document, the marks, the bytes removed before the next mark, and
/// whether a mark went before the start `start` of the view. Each mark,
/// moved back by what was removed before it (to the start at most), goes
/// back over a code point and removes it; a mark at the start stays.
/// `None` when a mark lies past the end of the document.
pub open spec fn back_pass<C: TextCodec>(codec: &C, buf: Seq<u8>, marks: Seq<Mark>, start: u64, i: nat) -> Option<
    (Seq<u8>, Seq<Mark>, int, bool),
>
    decreases i,
{
    if i == 0 {
        Some((buf, marks, 0, false))
    } else {
        match back_pass(codec, buf, marks, start, (i - 1) as nat) {
            None => None,
            Some(st) => {
                let (b, ms, shrink, scroll) = st;
                let o = marks[i - 1].offset;
                let o1 = if o >= shrink {
                    o - shrink
                } else {
                    0
                };
                if o1 == 0 {
                    Some((b, ms.update(i - 1, Mark { offset: 0 }), shrink, scroll))
                } else if o1 > b.len() {
                    None
                } else {
                    let p = char_backward(codec, b, o1).1 as int;
                    let size = fwd_size(codec, b, p);
                    Some(
                        (
                            removed(b, p, size),
                            ms.update(i - 1, Mark { offset: p as u64 }),
                            shrink + removal_size(b, p, size),
                            scroll || p < start,
                        ),
                    )
                }
            },
        }
    }
}

proof fn lemma_back_pass_step<C: TextCodec>(codec: &C, buf: Seq<u8>, marks: Seq<Mark>, start: u64, i: nat, j: nat)
    requires
        i <= j <= marks.len(),
        back_pass(codec, buf, marks, start, j) is Some,
    ensures
        back_pass(codec, buf, marks, start, i) matches Some(a) && a.2 + a.0.len() == buf.len() && a.1.len()
            == marks.len() && a.2 >= 0,
    decreases j,
{
    if i < j {
        lemma_back_pass_step(codec, buf, marks, start, i, (j - 1) as nat);
    } else if j > 0 {
        lemma_back_pass_step(codec, buf, marks, start, (j - 1) as nat, (j - 1) as nat);
    }
}

/// The marks and selection points once saved before a removal: repeated
/// neighbours are dropped when the last action moved the marks.
pub open spec fn marks_saved_on_move<C: TextCodec>(tm: TextModeContext<C>) -> (Seq<Mark>, Seq<Mark>) {
    if tm.prev_action == TextModeAction::MarksMove {
        (dedup_marks_spec(tm.marks@), dedup_marks_spec(tm.select_point@))
    } else {
        (tm.marks@, tm.select_point@)
    }
}

/// Removes the code point before every mark, once the selected ranges are
/// removed (nothing more is done when that removed a byte, or when the
/// document is empty); the view scrolls up a line when a mark went before
/// its start.
pub fn remove_previous_codepoint<C: TextCodec>(tm: &mut TextModeContext<C>, buffer: &mut Buffer, start_offset: u64)
    requires
        ({
            let (m1, p1) = marks_saved_on_move(*old(tm));
            let (b2, m2, p2) = selection_removed(old(buffer)@, m1, p1);
            &&& selection_removable(old(buffer)@, m1, p1)
            &&& back_pass(&old(tm).text_codec, b2, m2, start_offset, m2.len()) is Some
        }),
    ensures
        final(tm).same_settings(*old(tm)),
        final(tm).copy_buffer == old(tm).copy_buffer,
        final(tm).mark_index == old(tm).mark_index,
        ({
            let (m1, p1) = marks_saved_on_move(*old(tm));
            let (b2, m2, p2) = selection_removed(old(buffer)@, m1, p1);
            let sel = old(buffer)@.len() - b2.len();
            let st = back_pass(&old(tm).text_codec, b2, m2, start_offset, m2.len())->0;
            &&& final(tm).select_point@ == p2
            &&& if sel > 0 || b2.len() == 0 {
                &&& final(buffer)@ == b2
                &&& final(tm).marks@ == m2
                &&& final(tm).pre_compose_action == old(tm).pre_compose_action
                &&& final(tm).prev_action == old(tm).prev_action
            } else {
                &&& final(buffer)@ == st.0
                &&& final(tm).marks@ == st.1
                &&& final(tm).pre_compose_action@ == push_if(
                    old(tm).pre_compose_action@,
                    st.3,
                    PostInputAction::ScrollUp { n: 1 },
                ).push(PostInputAction::CheckMarks)
                &&& final(tm).prev_action == TextModeAction::DocumentModification
            }
        }),
{
    if tm.prev_action == TextModeAction::MarksMove {
        dedup_marks(&mut tm.marks);
        dedup_marks(&mut tm.select_point);
    }
    proof {
        if tm.marks@.len() == tm.select_point@.len() {
            let n = tm.marks@.len();
            lemma_sel_pass_prefix(buffer@, tm.marks@, tm.select_point@, false, true, n, n);
            lemma_sel_pass_removes(buffer@, tm.marks@, tm.select_point@, n);
        }
    }
    if copy_maybe_remove_selection(tm, buffer, false, true) > 0 {
        return ;
    }
    if buffer.size() == 0 {
        return ;
    }
    tm.prev_action = TextModeAction::DocumentModification;
    let ghost b2 = buffer@;
    let ghost m2 = tm.marks@;
    let ghost t0 = *tm;
    let n = tm.marks.len();
    proof {
        lemma_back_pass_step(&tm.text_codec, b2, m2, start_offset, n as nat, n as nat);
        buffer.lemma_size_bound();
    }
    let mut shrink: u64 = 0;
    let mut scroll = false;
    let mut i: usize = 0;
    while i < n
        invariant
            n == m2.len(),
            0 <= i <= n,
            tm.same_but_marks(t0),
            tm.pre_compose_action == t0.pre_compose_action,
            tm.mark_index == t0.mark_index,
            tm.prev_action == t0.prev_action,
            b2.len() <= usize::MAX,
            back_pass(&tm.text_codec, b2, m2, start_offset, n as nat) is Some,
            back_pass(&tm.text_codec, b2, m2, start_offset, i as nat) == Some(
                (buffer@, tm.marks@, shrink as int, scroll),
            ),
            forall|k: int| i <= k < n ==> #[trigger] tm.marks@[k] == m2[k],
        decreases n - i,
    {
        proof {
            lemma_back_pass_step(&tm.text_codec, b2, m2, start_offset, (i + 1) as nat, n as nat);
            lemma_back_pass_step(&tm.text_codec, b2, m2, start_offset, i as nat, n as nat);
        }
        let o = tm.marks[i].offset;
        let o1 = if o >= shrink {
            o - shrink
        } else {
            0
        };
        if o1 == 0 {
            tm.marks.set(i, Mark { offset: 0 });
        } else {
            let mut m = Mark { offset: o1 };
            m.move_backward(buffer, &tm.text_codec);
            let size = read_size(&tm.text_codec, buffer, m.offset);
            let nr_removed = buffer.remove(m.offset, size);
            shrink = shrink + nr_removed as u64;
            if m.offset < start_offset {
                scroll = true;
            }
            tm.marks.set(i, m);
        }
        i = i + 1;
    }
    if scroll {
        tm.pre_compose_action.push(PostInputAction::ScrollUp { n: 1 });
    }
    tm.pre_compose_action.push(PostInputAction::CheckMarks);
}

/// Where the removal of `remove_until_end_of_word` stops for a mark at
/// `o`: over the blanks of the line, then up to the next blank.
pub open spec fn word_end<C: TextCodec>(codec: &C, buf: Seq<u8>, o: int) -> int {
    walk_forward(codec, buf, walk_forward(codec, buf, o, blank_in_line_class()), non_blank_class())
}

/// In UTF-8, what `remove_until_end_of_word` removes at a mark stays on
/// the mark's line: from the mark to the end of the word there is no line
/// feed; the removed bytes are spaces and tabs, then bytes that are no
/// blanks; and the end of the word is the end of the document, or a blank
/// after a removed code point that is not one, or the line feed ending the
/// line.
pub proof fn lemma_word_end_in_line(buf: Seq<u8>, o: int)
    requires
        0 <= o <= buf.len(),
    ensures
        o <= word_end(&Utf8Codec {  }, buf, o) <= buf.len(),
        forall|k: int| o <= k < word_end(&Utf8Codec {  }, buf, o) ==> #[trigger] buf[k] != 0x0a,
        word_end(&Utf8Codec {  }, buf, o) < buf.len() ==> spec_is_blank(
            char_forward(&Utf8Codec {  }, buf, word_end(&Utf8Codec {  }, buf, o)).0,
        ),
        word_end(&Utf8Codec {  }, buf, o) < buf.len() ==> spec_is_end_of_line(
            char_forward(&Utf8Codec {  }, buf, word_end(&Utf8Codec {  }, buf, o)).0,
        ) || exists|p: int|
            o <= p < word_end(&Utf8Codec {  }, buf, o) && !spec_is_blank(
                #[trigger] char_forward(&Utf8Codec {  }, buf, p).0,
            ),
        forall|k: int, k2: int|
            o <= k < k2 < word_end(&Utf8Codec {  }, buf, o) && !is_blank_byte(#[trigger] buf[k])
                ==> !is_blank_byte(#[trigger] buf[k2]),
{
    let b = blank_in_line_class();
    let nb = non_blank_class();
    assert forall|c: char| #[trigger] b(c) implies c != '\n' by {}
    assert forall|c: char| #[trigger] nb(c) implies c != '\n' by {}
    lemma_walk_forward_no_line_feed(buf, o, b);
    let o2 = walk_forward(&Utf8Codec {  }, buf, o, b);
    lemma_walk_forward_no_line_feed(buf, o2, nb);
    lemma_walk_forward(&Utf8Codec {  }, buf, o2, nb);
    let e = walk_forward(&Utf8Codec {  }, buf, o2, nb);
    if e < buf.len() {
        lemma_utf8_forward_size(buf, e);
        lemma_walk_forward(&Utf8Codec {  }, buf, o, b);
        lemma_utf8_forward_size(buf, o2);
        if e > o2 {
            assert(!spec_is_blank(char_forward(&Utf8Codec {  }, buf, o2).0));
        }
    }
    lemma_walk_forward_line_blanks(buf, o);
    lemma_walk_forward_non_blanks(buf, o2);
    assert forall|k: int, k2: int|
        o <= k < k2 < e && !is_blank_byte(#[trigger] buf[k]) implies !is_blank_byte(#[trigger] buf[k2]) by {
        if k < o2 {
            assert(buf[k] == 0x20 || buf[k] == 0x09);
        }
    }
}

/// The pass of `remove_until_end_of_word` over the first `i` marks: the
/// document, the marks and the bytes removed before the next mark. Each
/// mark, moved back by what was removed before it (unless that is more
/// than its offset), removes up to its word end and stays there.
pub open spec fn word_pass<C: TextCodec>(codec: &C, buf: Seq<u8>, marks: Seq<Mark>, i: nat) -> (Seq<u8>, Seq<Mark>, int)
    decreases i,
{
    if i == 0 {
        (buf, marks, 0)
    } else {
        let (b, ms, shrink) = word_pass(codec, buf, marks, (i - 1) as nat);
        let o = marks[i - 1].offset;
        let o1 = if o >= shrink {
            o - shrink
        } else {
            o as int
        };
        let e = word_end(codec, b, o1);
        (removed(b, o1, e - o1), ms.update(i - 1, Mark { offset: o1 as u64 }), shrink + removal_size(b, o1, e - o1))
    }
}

proof fn lemma_word_pass_step<C: TextCodec>(codec: &C, buf: Seq<u8>, marks: Seq<Mark>, i: nat)
    requires
        i <= marks.len(),
    ensures
        ({
            let a = word_pass(codec, buf, marks, i);
            a.2 + a.0.len() == buf.len() && a.1.len() == marks.len() && a.2 >= 0
        }),
    decreases i,
{
    if i > 0 {
        lemma_word_pass_step(codec, buf, marks, (i - 1) as nat);
        let (b, ms, shrink) = word_pass(codec, buf, marks, (i - 1) as nat);
        let o = marks[i - 1].offset;
        let o1 = if o >= shrink {
            o - shrink
        } else {
            o as int
        };
        lemma_walk_forward_ge(codec, b, o1);
    }
}

/// The end of the word is not before the mark.
proof fn lemma_walk_forward_ge<C: TextCodec>(codec: &C, b: Seq<u8>, o: int)
    ensures
        word_end(codec, b, o) >= o,
        o <= b.len() ==> word_end(codec, b, o) <= b.len(),
{
    lemma_walk_bounds(codec, b, o, blank_in_line_class());
    lemma_walk_bounds(codec, b, walk_forward(codec, b, o, blank_in_line_class()), non_blank_class());
}

proof fn lemma_walk_bounds<C: TextCodec>(codec: &C, b: Seq<u8>, p: int, keep: spec_fn(char) -> bool)
    ensures
        walk_forward(codec, b, p, keep) >= p,
        p <= b.len() ==> walk_forward(codec, b, p, keep) <= b.len(),
    decreases b.len() - p,
{
    if 0 <= p < b.len() {
        let (cp, _, size) = crate::mark::char_forward(codec, b, p);
        if !(!keep(cp) || size == 0 || p + size > b.len()) {
            lemma_walk_bounds(codec, b, p + size, keep);
        }
    }
}

/// Removes, at every mark, the blanks of the line and the word after
/// them; the marks stay where the removals started.
pub fn remove_until_end_of_word<C: TextCodec>(tm: &mut TextModeContext<C>, buffer: &mut Buffer)
    ensures
        final(tm).same_but_marks(*old(tm)),
        final(tm).mark_index == old(tm).mark_index,
        final(tm).prev_action == old(tm).prev_action,
        old(buffer)@.len() == 0 ==> *final(tm) == *old(tm) && final(buffer)@ == old(buffer)@,
        old(buffer)@.len() > 0 ==> {
            let st = word_pass(&old(tm).text_codec, old(buffer)@, old(tm).marks@, old(tm).marks@.len());
            &&& final(buffer)@ == st.0
            &&& final(tm).marks@ == st.1
            &&& final(tm).pre_compose_action@ == old(tm).pre_compose_action@.push(
                PostInputAction::CheckMarks,
            ).push(PostInputAction::CancelSelection)
        },
{
    if buffer.size() == 0 {
        return ;
    }
    let ghost b0 = buffer@;
    let ghost m0 = tm.marks@;
    let ghost t0 = *tm;
    let n = tm.marks.len();
    proof {
        buffer.lemma_size_bound();
    }
    let mut shrink: u64 = 0;
    let mut i: usize = 0;
    while i < n
        invariant
            n == m0.len(),
            0 <= i <= n,
            tm.same_but_marks(t0),
            tm.pre_compose_action == t0.pre_compose_action,
            tm.mark_index == t0.mark_index,
            tm.prev_action == t0.prev_action,
            b0.len() <= usize::MAX,
            word_pass(&tm.text_codec, b0, m0, i as nat) == (buffer@, tm.marks@, shrink as int),
            forall|k: int| i <= k < n ==> #[trigger] tm.marks@[k] == m0[k],
        decreases n - i,
    {
        proof {
            lemma_word_pass_step(&tm.text_codec, b0, m0, i as nat);
            lemma_word_pass_step(&tm.text_codec, b0, m0, (i + 1) as nat);
        }
        let o = tm.marks[i].offset;
        let o1 = if o >= shrink {
            o - shrink
        } else {
            o
        };
        let mut m = Mark { offset: o1 };
        if o1 <= buffer.size() as u64 {
            m.skip_blanks_forward_until_end_of_line(buffer, &tm.text_codec);
            m.skip_non_blanks_forward(buffer, &tm.text_codec);
        }
        proof {
            lemma_walk_forward_ge(&tm.text_codec, buffer@, o1 as int);
        }
        let nr_removed = buffer.remove(o1, (m.offset - o1) as usize);
        shrink = shrink + nr_removed as u64;
        tm.marks.set(i, Mark { offset: o1 });
        i = i + 1;
    }
    tm.pre_compose_action.push(PostInputAction::CheckMarks);
    tm.pre_compose_action.push(PostInputAction::CancelSelection);
}

/// The bytes of the copies of the copy buffer (an entry that refers to
/// the document's history holds none here).
pub open spec fn copy_bytes(cb: Seq<CopyData>) -> Seq<Seq<u8>> {
    Seq::new(
        cb.len(),
        |k: int|
            match cb[k] {
                CopyData::Buffer(v) => v@,
                CopyData::BufferLogIndex(_) => Seq::empty(),
            },
    )
}

/// Every entry of the copy buffer holds its bytes.
pub open spec fn copies_standalone(cb: Seq<CopyData>) -> bool {
    forall|k: int| 0 <= k < cb.len() ==> #[trigger] cb[k] is Buffer
}

/// The pass of `paste` over the first `i` marks: the document, the marks
/// and the bytes inserted so far. Each mark, moved by what was inserted
/// before it, inserts its copy and moves after it. `None` when a mark lies
/// past the end of the document, or an offset or the document would grow
/// past what the machine counts.
pub open spec fn paste_pass(buf: Seq<u8>, marks: Seq<Mark>, copies: Seq<Seq<u8>>, i: nat) -> Option<
    (Seq<u8>, Seq<Mark>, int),
>
    decreases i,
{
    if i == 0 {
        Some((buf, marks, 0))
    } else {
        match paste_pass(buf, marks, copies, (i - 1) as nat) {
            None => None,
            Some(st) => {
                let (b, ms, grow) = st;
                let o = marks[i - 1].offset + grow;
                let d = copies[i - 1];
                if o > b.len() || o + d.len() > u64::MAX || b.len() + d.len() > usize::MAX {
                    None
                } else {
                    Some((inserted(b, o, d), ms.update(i - 1, Mark { offset: (o + d.len()) as u64 }), grow + d.len()))
                }
            },
        }
    }
}

proof fn lemma_paste_pass_prefix(buf: Seq<u8>, marks: Seq<Mark>, copies: Seq<Seq<u8>>, i: nat, j: nat)
    requires
        i <= j <= marks.len(),
        paste_pass(buf, marks, copies, j) is Some,
    ensures
        paste_pass(buf, marks, copies, i) matches Some(a) && a.1.len() == marks.len() && a.2 >= 0,
    decreases j,
{
    if i < j {
        lemma_paste_pass_prefix(buf, marks, copies, i, (j - 1) as nat);
    } else if j > 0 {
        lemma_paste_pass_prefix(buf, marks, copies, (j - 1) as nat, (j - 1) as nat);
    }
}

/// The total length of the first `i` copies.
pub open spec fn copies_len(copies: Seq<Seq<u8>>, i: int) -> int
    decreases i,
{
    if i <= 0 {
        0
    } else {
        copies_len(copies, i - 1) + copies[i - 1].len()
    }
}

proof fn lemma_copies_len_mono(copies: Seq<Seq<u8>>, i: int, j: int)
    requires
        i <= j,
    ensures
        copies_len(copies, i) <= copies_len(copies, j),
    decreases j - i,
{
    if i < j {
        lemma_copies_len_mono(copies, i, j - 1);
    }
}

/// Marks in document order.
pub open spec fn marks_in_order(marks: Seq<Mark>) -> bool {
    forall|x: int, y: int| 0 <= x < y < marks.len() ==> #[trigger] marks[x].offset <= #[trigger] marks[y].offset
}

/// Pasting `k` copies at `k` marks: the document grows by the length of
/// all the copies, each mark ends after its copy, moved by the length of
/// the copies pasted before it, and, when the marks are in document order,
/// copy `i` stands in the document at the offset of mark `i` moved by the
/// length of the copies before it.
pub proof fn lemma_paste_places_copies(buf: Seq<u8>, marks: Seq<Mark>, copies: Seq<Seq<u8>>)
    requires
        marks.len() == copies.len(),
        paste_pass(buf, marks, copies, marks.len()) is Some,
    ensures
        ({
            let st = paste_pass(buf, marks, copies, marks.len())->0;
            &&& st.0.len() == buf.len() + copies_len(copies, marks.len() as int)
            &&& st.1.len() == marks.len()
            &&& forall|k: int|
                0 <= k < marks.len() ==> #[trigger] st.1[k].offset == marks[k].offset + copies_len(
                    copies,
                    k + 1,
                )
            &&& marks_in_order(marks) ==> forall|k: int|
                0 <= k < marks.len() ==> st.0.subrange(
                    marks[k].offset + copies_len(copies, k),
                    marks[k].offset + copies_len(copies, k + 1),
                ) == #[trigger] copies[k]
        }),
{
    lemma_paste_pass_shape(buf, marks, copies, marks.len());
    if marks_in_order(marks) {
        lemma_paste_pass_content(buf, marks, copies, marks.len());
    }
}

proof fn lemma_paste_pass_shape(buf: Seq<u8>, marks: Seq<Mark>, copies: Seq<Seq<u8>>, i: nat)
    requires
        i <= marks.len(),
        paste_pass(buf, marks, copies, i) is Some,
    ensures
        ({
            let st = paste_pass(buf, marks, copies, i)->0;
            &&& st.2 == copies_len(copies, i as int)
            &&& st.0.len() == buf.len() + copies_len(copies, i as int)
            &&& st.1.len() == marks.len()
            &&& forall|k: int|
                0 <= k < i ==> #[trigger] st.1[k].offset == marks[k].offset + copies_len(copies, k + 1)
            &&& forall|k: int| i <= k < marks.len() ==> #[trigger] st.1[k] == marks[k]
        }),
    decreases i,
{
    if i > 0 {
        lemma_paste_pass_shape(buf, marks, copies, (i - 1) as nat);
        let (b, ms, grow) = paste_pass(buf, marks, copies, (i - 1) as nat)->0;
        let o = marks[i - 1].offset + grow;
        let d = copies[i - 1];
        let st = paste_pass(buf, marks, copies, i)->0;
        assert(st.0 == inserted(b, o, d));
        lemma_copies_len_mono(copies, 0, i - 1);
        assert(0 <= o <= b.len() && o + d.len() <= u64::MAX);
        lemma_read_after_insert(b, o, d);
        assert(st.1 == ms.update(i - 1, Mark { offset: (o + d.len()) as u64 }));
        assert(st.2 == grow + d.len());
        assert(copies_len(copies, i as int) == copies_len(copies, i - 1) + d.len());
        assert(st.0.len() == b.len() + d.len());
        assert forall|k: int| 0 <= k < i implies #[trigger] st.1[k].offset == marks[k].offset
            + copies_len(copies, k + 1) by {
            if k < i - 1 {
                assert(st.1[k] == ms[k]);
            } else {
                assert(st.1[k].offset == o + d.len());
            }
        }
        assert forall|k: int| i <= k < marks.len() implies #[trigger] st.1[k] == marks[k] by {
            assert(st.1[k] == ms[k]);
        }
    }
}

proof fn lemma_subrange_within_prefix(x: Seq<u8>, y: Seq<u8>, o: int, a: int, e: int)
    requires
        0 <= a <= e <= o <= x.len(),
        o <= y.len(),
        x.subrange(0, o) == y.subrange(0, o),
    ensures
        x.subrange(a, e) == y.subrange(a, e),
{
    assert(x.subrange(a, e) =~= x.subrange(0, o).subrange(a, e));
    assert(y.subrange(a, e) =~= y.subrange(0, o).subrange(a, e));
}

proof fn lemma_paste_pass_content(buf: Seq<u8>, marks: Seq<Mark>, copies: Seq<Seq<u8>>, i: nat)
    requires
        i <= marks.len(),
        paste_pass(buf, marks, copies, i) is Some,
        marks_in_order(marks),
    ensures
        ({
            let st = paste_pass(buf, marks, copies, i)->0;
            forall|k: int|
                0 <= k < i ==> st.0.subrange(
                    marks[k].offset + copies_len(copies, k),
                    marks[k].offset + copies_len(copies, k + 1),
                ) == #[trigger] copies[k]
        }),
    decreases i,
{
    if i > 0 {
        lemma_paste_pass_content(buf, marks, copies, (i - 1) as nat);
        lemma_paste_pass_shape(buf, marks, copies, (i - 1) as nat);
        let (b, ms, grow) = paste_pass(buf, marks, copies, (i - 1) as nat)->0;
        let o = marks[i - 1].offset + grow;
        let d = copies[i - 1];
        let st = paste_pass(buf, marks, copies, i)->0;
        assert(st.0 == inserted(b, o, d));
        lemma_copies_len_mono(copies, 0, i - 1);
        lemma_read_after_insert(b, o, d);
        assert forall|k: int| 0 <= k < i implies st.0.subrange(
            marks[k].offset + copies_len(copies, k),
            marks[k].offset + copies_len(copies, k + 1),
        ) == #[trigger] copies[k] by {
            let a = marks[k].offset + copies_len(copies, k);
            let e = marks[k].offset + copies_len(copies, k + 1);
            if k < i - 1 {
                lemma_copies_len_mono(copies, k + 1, i - 1);
                lemma_copies_len_mono(copies, 0, k);
                assert(marks[k].offset <= marks[i - 1].offset);
                lemma_subrange_within_prefix(st.0, b, o, a, e);
            } else {
                assert(a == o);
            }
        }
    }
}

/// Inserts at each mark the copy of the same rank, when there are as many
/// copies as marks; each mark moves after what it inserted. Nothing is
/// done when the copy buffer is empty.
pub fn paste<C: TextCodec>(tm: &mut TextModeContext<C>, buffer: &mut Buffer)
    requires
        old(tm).copy_buffer@.len() == old(tm).marks@.len() ==> copies_standalone(old(tm).copy_buffer@)
            && paste_pass(old(buffer)@, old(tm).marks@, copy_bytes(old(tm).copy_buffer@), old(tm).marks@.len())
            is Some,
    ensures
        final(tm).same_but_marks(*old(tm)),
        final(tm).mark_index == old(tm).mark_index,
        final(tm).prev_action == old(tm).prev_action,
        old(tm).copy_buffer@.len() == 0 ==> *final(tm) == *old(tm) && final(buffer)@ == old(buffer)@,
        old(tm).copy_buffer@.len() > 0 ==> {
            &&& final(tm).pre_compose_action@ == old(tm).pre_compose_action@.push(
                PostInputAction::CheckMarks,
            ).push(PostInputAction::CancelSelection)
            &&& if old(tm).copy_buffer@.len() == old(tm).marks@.len() {
                let st = paste_pass(old(buffer)@, old(tm).marks@, copy_bytes(old(tm).copy_buffer@), old(tm).marks@.len())->0;
                final(buffer)@ == st.0 && final(tm).marks@ == st.1
            } else {
                final(buffer)@ == old(buffer)@ && final(tm).marks == old(tm).marks
            }
        },
{
    if tm.copy_buffer.len() == 0 {
        return ;
    }
    let n = tm.marks.len();
    if tm.copy_buffer.len() == n {
        let ghost b0 = buffer@;
        let ghost m0 = tm.marks@;
        let ghost copies = copy_bytes(tm.copy_buffer@);
        let ghost t0 = *tm;
        let mut grow: u64 = 0;
        let mut i: usize = 0;
        proof {
            lemma_paste_pass_prefix(b0, m0, copies, n as nat, n as nat);
        }
        while i < n
            invariant
                n == m0.len(),
                n == tm.copy_buffer@.len(),
                0 <= i <= n,
                tm.same_but_marks(t0),
                tm.pre_compose_action == t0.pre_compose_action,
                tm.mark_index == t0.mark_index,
                tm.prev_action == t0.prev_action,
                copies == copy_bytes(tm.copy_buffer@),
                copies_standalone(tm.copy_buffer@),
                paste_pass(b0, m0, copies, n as nat) is Some,
                paste_pass(b0, m0, copies, i as nat) == Some((buffer@, tm.marks@, grow as int)),
                forall|k: int| i <= k < n ==> #[trigger] tm.marks@[k] == m0[k],
            decreases n - i,
        {
            proof {
                lemma_paste_pass_prefix(b0, m0, copies, (i + 1) as nat, n as nat);
                lemma_paste_pass_prefix(b0, m0, copies, i as nat, n as nat);
                assert(tm.copy_buffer@[i as int] is Buffer);
            }
            let o = tm.marks[i].offset + grow;
            match &tm.copy_buffer[i] {
                CopyData::Buffer(data) => {
                    let nr_in = buffer.insert(o, data.len(), data.as_slice());
                    proof {
                        assert(data@.subrange(0, data@.len() as int) =~= data@);
                    }
                    grow = grow + nr_in as u64;
                    tm.marks.set(i, Mark { offset: o + nr_in as u64 });
                },
                CopyData::BufferLogIndex(_) => {},
            }
            i = i + 1;
        }
    }
    tm.pre_compose_action.push(PostInputAction::CheckMarks);
    tm.pre_compose_action.push(PostInputAction::CancelSelection);
}

/// The pass of `cut_to_end_of_line` over the last `j` marks, from the
/// last one back: the document, and the sizes and bytes cut at those
/// marks, in the order of the marks. Each mark cuts up to the end of its
/// line; a single mark already at the end of its line cuts the end of
/// line. `None` when a mark lies past the end of the document.
pub open spec fn cut_pass<C: TextCodec>(codec: &C, buf: Seq<u8>, marks: Seq<Mark>, j: nat) -> Option<
    (Seq<u8>, Seq<int>, Seq<Seq<u8>>),
>
    decreases j,
{
    if j == 0 {
        Some((buf, Seq::empty(), Seq::empty()))
    } else if j > marks.len() {
        None
    } else {
        match cut_pass(codec, buf, marks, (j - 1) as nat) {
            None => None,
            Some(st) => {
                let (b, sizes, copies) = st;
                let o = marks[marks.len() - j].offset as int;
                if o > b.len() {
                    None
                } else {
                    let e1 = line_end(b, eol_pattern(codec), o);
                    let e = if e1 == o && marks.len() == 1 {
                        forward_offset(codec, b, e1)
                    } else {
                        e1
                    };
                    Some((removed(b, o, e - o), seq![e - o] + sizes, seq![read_range(b, o, e - o)] + copies))
                }
            },
        }
    }
}

proof fn lemma_cut_pass_prefix<C: TextCodec>(codec: &C, buf: Seq<u8>, marks: Seq<Mark>, i: nat, j: nat)
    requires
        i <= j,
        cut_pass(codec, buf, marks, j) is Some,
    ensures
        cut_pass(codec, buf, marks, i) matches Some(a) && a.1.len() == i && a.2.len() == i,
    decreases j,
{
    if i < j {
        lemma_cut_pass_prefix(codec, buf, marks, i, (j - 1) as nat);
    } else if j > 0 {
        lemma_cut_pass_prefix(codec, buf, marks, (j - 1) as nat, (j - 1) as nat);
    }
}

/// The sum of the first `i` sizes.
pub open spec fn prefix_sum(s: Seq<int>, i: int) -> int
    decreases i,
{
    if i <= 0 {
        0
    } else {
        prefix_sum(s, i - 1) + s[i - 1]
    }
}

/// Cuts, at every mark from the last one back, up to the end of its line
/// (a single mark at the end of its line cuts the end of line); the copy
/// buffer then holds what each mark cut, and each mark moves back by what
/// the marks before it cut.
pub fn cut_to_end_of_line<C: TextCodec>(tm: &mut TextModeContext<C>, buffer: &mut Buffer)
    requires
        cut_pass(&old(tm).text_codec, old(buffer)@, old(tm).marks@, old(tm).marks@.len()) is Some,
        ({
            let st = cut_pass(&old(tm).text_codec, old(buffer)@, old(tm).marks@, old(tm).marks@.len())->0;
            forall|k: int| 0 < k < old(tm).marks@.len() ==> prefix_sum(st.1, k) <= #[trigger] old(tm).marks@[k].offset
        }),
    ensures
        final(tm).same_settings(*old(tm)),
        final(tm).select_point == old(tm).select_point,
        final(tm).mark_index == old(tm).mark_index,
        final(tm).prev_action == old(tm).prev_action,
        ({
            let st = cut_pass(&old(tm).text_codec, old(buffer)@, old(tm).marks@, old(tm).marks@.len())->0;
            &&& final(buffer)@ == st.0
            &&& holds_copies(final(tm).copy_buffer@, st.2)
            &&& final(tm).marks@.len() == old(tm).marks@.len()
            &&& forall|k: int|
                0 <= k < old(tm).marks@.len() ==> #[trigger] final(tm).marks@[k].offset == old(tm).marks@[k].offset
                    - prefix_sum(st.1, k)
            &&& final(tm).pre_compose_action@ == old(tm).pre_compose_action@.push(
                PostInputAction::CheckMarks,
            ).push(PostInputAction::CancelSelection)
        }),
{
    let ghost b0 = buffer@;
    let ghost m0 = tm.marks@;
    let n = tm.marks.len();
    tm.copy_buffer.clear();
    let ghost t0 = *tm;
    let single = n == 1;
    let mut sizes: Vec<u64> = Vec::new();
    let ghost mut sizes_i: Seq<int> = Seq::empty();
    let ghost mut copies: Seq<Seq<u8>> = Seq::empty();
    let mut j: usize = 0;
    proof {
        lemma_cut_pass_prefix(&tm.text_codec, b0, m0, n as nat, n as nat);
        buffer.lemma_size_bound();
    }
    while j < n
        invariant
            n == m0.len(),
            tm.marks@ == m0,
            single == (n == 1),
            0 <= j <= n,
            tm.same_settings(t0),
            tm.pre_compose_action == t0.pre_compose_action,
            tm.mark_index == t0.mark_index,
            tm.prev_action == t0.prev_action,
            tm.select_point == t0.select_point,
            cut_pass(&tm.text_codec, b0, m0, n as nat) is Some,
            cut_pass(&tm.text_codec, b0, m0, j as nat) == Some((buffer@, sizes_i, copies)),
            sizes@.len() == j,
            sizes_i.len() == j,
            forall|k: int| 0 <= k < j ==> #[trigger] sizes@[k] == sizes_i[j - 1 - k],
            holds_copies(tm.copy_buffer@, copies),
            buffer@.len() <= usize::MAX,
        decreases n - j,
    {
        proof {
            lemma_cut_pass_prefix(&tm.text_codec, b0, m0, (j + 1) as nat, n as nat);
            lemma_cut_pass_prefix(&tm.text_codec, b0, m0, j as nat, n as nat);
        }
        let k = n - 1 - j;
        let m = tm.marks[k];
        let mut end = m;
        end.move_to_end_of_line(buffer, &tm.text_codec);
        proof {
            lemma_line_end_unique(buffer@, eol_pattern(&tm.text_codec), m.offset as int, end.offset as int);
        }
        if m.offset == end.offset && single {
            end.move_forward(buffer, &tm.text_codec);
        }
        let size = end.offset - m.offset;
        let mut data: Vec<u8> = Vec::new();
        let nr = buffer.read(m.offset, size as usize, &mut data);
        proof {
            if nr > 0 {
                assert(data@ =~= read_range(buffer@, m.offset as int, size as int));
            } else {
                assert(data@ =~= read_range(buffer@, m.offset as int, size as int));
            }
        }
        buffer.remove(m.offset, size as usize);
        sizes.push(size);
        let ghost cb = tm.copy_buffer@;
        tm.copy_buffer.insert(0, CopyData::Buffer(data));
        proof {
            let old_sizes = sizes_i;
            sizes_i = seq![size as int] + sizes_i;
            copies = seq![data@] + copies;
            assert forall|q: int| 0 <= q < j + 1 implies #[trigger] sizes@[q] == sizes_i[j - q] by {
                if q < j {
                    assert(sizes_i[j - q] == old_sizes[j - 1 - q]);
                }
            }
            assert forall|q: int| 0 <= q < tm.copy_buffer@.len() implies (
            #[trigger] tm.copy_buffer@[q] matches CopyData::Buffer(v) && v@ == copies[q]) by {
                if q > 0 {
                    assert(tm.copy_buffer@[q] == cb[q - 1]);
                }
            }
        }
        j = j + 1;
    }
    let mut shrink: u64 = 0;
    let mut idx: usize = 1;
    if n > 0 {
        while idx < n
            invariant
                n == m0.len(),
                n > 0,
                1 <= idx <= n,
                tm.marks@.len() == n,
                tm.same_settings(t0),
                holds_copies(tm.copy_buffer@, copies),
                cut_pass(&tm.text_codec, b0, m0, n as nat) == Some((buffer@, sizes_i, copies)),
                tm.pre_compose_action == t0.pre_compose_action,
                tm.mark_index == t0.mark_index,
                tm.prev_action == t0.prev_action,
                tm.select_point == t0.select_point,
                sizes_i.len() == n,
                sizes@.len() == n,
                forall|k: int| 0 <= k < n ==> #[trigger] sizes@[k] == sizes_i[n - 1 - k],
                forall|k: int| 0 < k < n ==> prefix_sum(sizes_i, k) <= #[trigger] m0[k].offset,
                shrink == prefix_sum(sizes_i, idx - 1),
                tm.marks@[0] == m0[0],
                forall|k: int| 1 <= k < idx ==> #[trigger] tm.marks@[k].offset == m0[k].offset - prefix_sum(sizes_i, k),
                forall|k: int| idx <= k < n ==> #[trigger] tm.marks@[k] == m0[k],
            decreases n - idx,
        {
            proof {
                assert(sizes@[n - idx] == sizes_i[idx - 1]);
                assert(prefix_sum(sizes_i, idx as int) == prefix_sum(sizes_i, idx - 1) + sizes_i[idx - 1]);
                assert(prefix_sum(sizes_i, idx as int) <= m0[idx as int].offset);
            }
            shrink = shrink + sizes[n - idx];
            let o = tm.marks[idx].offset;
            tm.marks.set(idx, Mark { offset: o - shrink });
            idx = idx + 1;
        }
    }
    tm.pre_compose_action.push(PostInputAction::CheckMarks);
    tm.pre_compose_action.push(PostInputAction::CancelSelection);
}

/// Putting back, where they were taken, the bytes a removal took gives
/// the document back.
pub proof fn lemma_insert_undoes_remove(b: Seq<u8>, o: int, k: int)
    requires
        0 <= o <= b.len(),
        k >= 0,
    ensures
        inserted(removed(b, o, k), o, read_range(b, o, k)) == b,
{
    let n = removal_size(b, o, k);
    if n == 0 {
        assert(inserted(b, o, Seq::empty()) =~= b);
    } else {
        let r = removed(b, o, k);
        assert(r.subrange(0, o) =~= b.subrange(0, o));
        assert(r.subrange(o, r.len() as int) =~= b.subrange(o + n, b.len() as int));
        assert(inserted(r, o, b.subrange(o, o + n)) =~= b);
    }
}

/// With a single mark, cutting the rest of its line and pasting what was
/// cut at the mark gives the document back.
pub proof fn lemma_paste_undoes_cut<C: TextCodec>(codec: &C, b: Seq<u8>, m: Mark)
    requires
        b.len() <= usize::MAX,
        m.offset <= b.len(),
    ensures
        cut_pass(codec, b, seq![m], 1) matches Some(st) && paste_pass(st.0, seq![m], st.2, 1) matches Some(p)
            && p.0 == b,
{
    let o = m.offset as int;
    let pat = eol_pattern(codec);
    lemma_line_end_exists(b, pat, o);
    let marks = seq![m];
    assert(cut_pass(codec, b, marks, 0) == Some((b, Seq::<int>::empty(), Seq::<Seq<u8>>::empty())));
    let e1 = line_end(b, pat, o);
    let e = if e1 == o && marks.len() == 1 {
        forward_offset(codec, b, e1)
    } else {
        e1
    };
    assert(e >= o);
    let st = cut_pass(codec, b, marks, 1)->0;
    assert(st.0 == removed(b, o, e - o));
    assert(st.2 == seq![read_range(b, o, e - o)] + Seq::<Seq<u8>>::empty());
    lemma_insert_undoes_remove(b, o, e - o);
    let d = read_range(b, o, e - o);
    assert(st.2[0] == d);
    assert(paste_pass(st.0, marks, st.2, 0) == Some((st.0, marks, 0int)));
    assert(removed(b, o, e - o).len() + d.len() == b.len());
}

/// Where `cut_to_end_of_line` leaves the marks: each moved back by what the
/// marks before it cut.
pub open spec fn marks_after_cut(marks: Seq<Mark>, sizes: Seq<int>) -> Seq<Mark> {
    Seq::new(marks.len(), |k: int| Mark { offset: (marks[k].offset - prefix_sum(sizes, k)) as u64 })
}

/// One step of `cut_pass`: the mark of rank `marks.len() - j` cuts its
/// part of the document left by the marks after it.
proof fn lemma_cut_pass_step<C: TextCodec>(codec: &C, b: Seq<u8>, marks: Seq<Mark>, j: nat)
    requires
        1 <= j <= marks.len(),
        cut_pass(codec, b, marks, j) is Some,
    ensures
        cut_pass(codec, b, marks, (j - 1) as nat) is Some,
        ({
            let prev = cut_pass(codec, b, marks, (j - 1) as nat)->0;
            let st = cut_pass(codec, b, marks, j)->0;
            let o = marks[marks.len() - j].offset as int;
            let sz = st.1[0];
            &&& o <= prev.0.len()
            &&& sz >= 0
            &&& marks.len() >= 2 ==> o + sz <= prev.0.len()
            &&& marks.len() >= 2 ==> o + sz == line_end(prev.0, eol_pattern(codec), o)
            &&& st.0 == removed(prev.0, o, sz)
            &&& st.0.len() <= prev.0.len()
            &&& st.2[0] == read_range(prev.0, o, sz)
            &&& st.1 == seq![sz] + prev.1
            &&& st.2 == seq![st.2[0]] + prev.2
        }),
{
    lemma_cut_pass_prefix(codec, b, marks, (j - 1) as nat, j);
    let prev = cut_pass(codec, b, marks, (j - 1) as nat)->0;
    let o = marks[marks.len() - j].offset as int;
    let pat = eol_pattern(codec);
    lemma_line_end_exists(prev.0, pat, o);
    let e1 = line_end(prev.0, pat, o);
    let e = if e1 == o && marks.len() == 1 {
        forward_offset(codec, prev.0, e1)
    } else {
        e1
    };
    let st = cut_pass(codec, b, marks, j)->0;
    assert(st.1 == seq![e - o] + prev.1);
    assert(st.1[0] == e - o);
    if e1 == o && marks.len() == 1 {
        if o < prev.0.len() {
            assert(e >= o);
        }
    }
    assert(e >= o);
    assert(st.2 == seq![read_range(prev.0, o, e - o)] + prev.2);
}

/// Later passes of `cut_pass` put their sizes and copies in front of those
/// of earlier ones.
proof fn lemma_cut_pass_suffix<C: TextCodec>(codec: &C, b: Seq<u8>, marks: Seq<Mark>, j: nat, jj: nat)
    requires
        j <= jj <= marks.len(),
        cut_pass(codec, b, marks, jj) is Some,
    ensures
        cut_pass(codec, b, marks, j) is Some,
        cut_pass(codec, b, marks, jj).unwrap().1.subrange(jj - j, jj as int) == cut_pass(codec, b, marks, j).unwrap().1,
        cut_pass(codec, b, marks, jj).unwrap().2.subrange(jj - j, jj as int) == cut_pass(codec, b, marks, j).unwrap().2,
        cut_pass(codec, b, marks, jj).unwrap().0.len() <= cut_pass(codec, b, marks, j).unwrap().0.len(),
    decreases jj,
{
    lemma_cut_pass_prefix(codec, b, marks, jj, jj);
    lemma_cut_pass_prefix(codec, b, marks, j, jj);
    if j < jj {
        lemma_cut_pass_step(codec, b, marks, jj);
        lemma_cut_pass_suffix(codec, b, marks, j, (jj - 1) as nat);
        lemma_cut_pass_prefix(codec, b, marks, (jj - 1) as nat, jj);
        let st = cut_pass(codec, b, marks, jj)->0;
        let prev = cut_pass(codec, b, marks, (jj - 1) as nat)->0;
        assert(st.1.subrange(jj - j, jj as int) =~= prev.1.subrange(jj - 1 - j, jj - 1));
        assert(st.2.subrange(jj - j, jj as int) =~= prev.2.subrange(jj - 1 - j, jj - 1));
    } else {
        let st = cut_pass(codec, b, marks, jj)->0;
        assert(st.1.subrange(0, jj as int) =~= st.1);
        assert(st.2.subrange(0, jj as int) =~= st.2);
    }
}

/// What mark `k` cut, in the final result of `cut_pass`: its size and its
/// copy, taken from the document that the marks after it left.
proof fn lemma_cut_pass_entry<C: TextCodec>(codec: &C, b: Seq<u8>, marks: Seq<Mark>, k: int)
    requires
        0 <= k < marks.len(),
        cut_pass(codec, b, marks, marks.len()) is Some,
    ensures
        ({
            let n = marks.len();
            let st = cut_pass(codec, b, marks, n)->0;
            let e_after = cut_pass(codec, b, marks, (n - k - 1) as nat).unwrap().0;
            let e_here = cut_pass(codec, b, marks, (n - k) as nat).unwrap().0;
            let o = marks[k].offset as int;
            &&& st.1.len() == n
            &&& st.2.len() == n
            &&& o <= e_after.len()
            &&& st.1[k] >= 0
            &&& n >= 2 ==> o + st.1[k] <= e_after.len()
            &&& n >= 2 ==> o + st.1[k] == line_end(e_after, eol_pattern(codec), o)
            &&& e_here == removed(e_after, o, st.1[k])
            &&& st.2[k] == read_range(e_after, o, st.1[k])
            &&& e_after.len() <= b.len()
        }),
{
    let n = marks.len();
    lemma_cut_pass_prefix(codec, b, marks, n, n);
    lemma_cut_pass_suffix(codec, b, marks, (n - k) as nat, n);
    lemma_cut_pass_step(codec, b, marks, (n - k) as nat);
    lemma_cut_pass_suffix(codec, b, marks, (n - k - 1) as nat, (n - k - 1) as nat);
    lemma_cut_pass_suffix(codec, b, marks, 0, (n - k - 1) as nat);
    let st = cut_pass(codec, b, marks, n)->0;
    let here = cut_pass(codec, b, marks, (n - k) as nat)->0;
    assert(st.1[k] == st.1.subrange(k, n as int)[0]);
    assert(st.2[k] == st.2.subrange(k, n as int)[0]);
}

/// The sizes that `cut_pass` records add up, before every mark, to the
/// bytes its copies hold.
proof fn lemma_cut_sizes_are_copies<C: TextCodec>(codec: &C, b: Seq<u8>, marks: Seq<Mark>, i: int)
    requires
        0 <= i < marks.len(),
        cut_pass(codec, b, marks, marks.len()) is Some,
    ensures
        prefix_sum(cut_pass(codec, b, marks, marks.len()).unwrap().1, i) == copies_len(
            cut_pass(codec, b, marks, marks.len()).unwrap().2,
            i,
        ),
    decreases i,
{
    if i > 0 {
        lemma_cut_sizes_are_copies(codec, b, marks, i - 1);
        lemma_cut_pass_entry(codec, b, marks, i - 1);
    }
}

/// In UTF-8, with several marks, each mark cuts the rest of its line in the
/// document that the marks after it left: its copy holds no line feed and
/// is followed there by a line feed or by the end of the document.
pub proof fn lemma_cut_takes_rest_of_line(b: Seq<u8>, marks: Seq<Mark>, k: int)
    requires
        marks.len() >= 2,
        0 <= k < marks.len(),
        cut_pass(&Utf8Codec {  }, b, marks, marks.len()) is Some,
    ensures
        ({
            let n = marks.len();
            let copy = cut_pass(&Utf8Codec {  }, b, marks, n).unwrap().2[k];
            let before = cut_pass(&Utf8Codec {  }, b, marks, (n - k - 1) as nat).unwrap().0;
            let o = marks[k].offset as int;
            &&& before.subrange(o, o + copy.len()) == copy
            &&& forall|q: int| 0 <= q < copy.len() ==> #[trigger] copy[q] != 0x0a
            &&& o + copy.len() == before.len() || before[o + copy.len()] == 0x0a
        }),
{
    let codec = Utf8Codec {  };
    let n = marks.len();
    lemma_cut_pass_entry(&codec, b, marks, k);
    let st = cut_pass(&codec, b, marks, n).unwrap();
    let before = cut_pass(&codec, b, marks, (n - k - 1) as nat).unwrap().0;
    let o = marks[k].offset as int;
    let pat = eol_pattern(&codec);
    assert(pat =~= seq![0x0au8]);
    lemma_line_end_exists(before, pat, o);
    let e = line_end(before, pat, o);
    let copy = st.2[k];
    assert(copy =~= before.subrange(o, e));
    assert forall|q: int| 0 <= q < copy.len() implies #[trigger] copy[q] != 0x0a by {
        assert(copy[q] == before[o + q]);
        if before[o + q] == 0x0a {
            assert(before.subrange(o + q, o + q + 1) =~= pat);
            assert(occurs_at(before, pat, o + q));
        }
    }
    if e < before.len() {
        assert(occurs_at(before, pat, e));
        assert(before.subrange(e, e + 1)[0] == before[e]);
    }
}

/// Cutting to the end of the line at every mark, then pasting at the marks
/// where the cut left them, gives the document back; each mark ends after
/// the bytes it had cut.
pub proof fn lemma_paste_undoes_cut_at_marks<C: TextCodec>(codec: &C, b: Seq<u8>, marks: Seq<Mark>)
    requires
        b.len() <= usize::MAX,
        b.len() <= u64::MAX,
        cut_pass(codec, b, marks, marks.len()) is Some,
        ({
            let st = cut_pass(codec, b, marks, marks.len())->0;
            forall|k: int| 0 < k < marks.len() ==> prefix_sum(st.1, k) <= #[trigger] marks[k].offset
        }),
    ensures
        ({
            let st = cut_pass(codec, b, marks, marks.len())->0;
            let moved = marks_after_cut(marks, st.1);
            &&& paste_pass(st.0, moved, st.2, marks.len()) matches Some(p)
            &&& p.0 == b
            &&& forall|k: int|
                0 <= k < marks.len() ==> #[trigger] p.1[k].offset == marks[k].offset + st.2[k].len()
        }),
{
    let n = marks.len();
    let st = cut_pass(codec, b, marks, n)->0;
    let moved = marks_after_cut(marks, st.1);
    lemma_paste_after_cut(codec, b, marks, n);
    lemma_cut_pass_prefix(codec, b, marks, n, n);
    lemma_paste_pass_shape(st.0, moved, st.2, n);
    let p = paste_pass(st.0, moved, st.2, n)->0;
    assert forall|k: int| 0 <= k < n implies #[trigger] p.1[k].offset == marks[k].offset
        + st.2[k].len() by {
        lemma_cut_sizes_are_copies(codec, b, marks, k);
        lemma_cut_pass_entry(codec, b, marks, k);
        lemma_copies_len_mono(st.2, 0, k);
    }
}

proof fn lemma_paste_after_cut<C: TextCodec>(codec: &C, b: Seq<u8>, marks: Seq<Mark>, i: nat)
    requires
        i <= marks.len(),
        b.len() <= usize::MAX,
        b.len() <= u64::MAX,
        cut_pass(codec, b, marks, marks.len()) is Some,
        ({
            let st = cut_pass(codec, b, marks, marks.len())->0;
            forall|k: int| 0 < k < marks.len() ==> prefix_sum(st.1, k) <= #[trigger] marks[k].offset
        }),
    ensures
        ({
            let n = marks.len();
            let st = cut_pass(codec, b, marks, n)->0;
            &&& paste_pass(st.0, marks_after_cut(marks, st.1), st.2, i) matches Some(p)
            &&& p.0 == cut_pass(codec, b, marks, (n - i) as nat).unwrap().0
            &&& p.2 == copies_len(st.2, i as int)
        }),
    decreases i,
{
    let n = marks.len();
    lemma_cut_pass_prefix(codec, b, marks, n, n);
    let st = cut_pass(codec, b, marks, n)->0;
    let moved = marks_after_cut(marks, st.1);
    if i == 0 {
        assert(cut_pass(codec, b, marks, n).unwrap().0 == st.0);
    } else {
        let k = i - 1;
        lemma_paste_after_cut(codec, b, marks, (i - 1) as nat);
        lemma_cut_pass_entry(codec, b, marks, k);
        lemma_cut_sizes_are_copies(codec, b, marks, k);
        lemma_copies_len_mono(st.2, 0, k);
        let p = paste_pass(st.0, moved, st.2, (i - 1) as nat)->0;
        let e_after = cut_pass(codec, b, marks, (n - k - 1) as nat).unwrap().0;
        let o = marks[k].offset as int;
        assert(moved[k].offset == o - prefix_sum(st.1, k));
        assert(moved[k].offset + p.2 == o);
        lemma_insert_undoes_remove(e_after, o, st.1[k]);
        assert(p.0.len() + st.2[k].len() == e_after.len());
    }
}

/// The stages of the handling of an input event.
#[derive(Debug, Clone, Copy, PartialEq, Eq, Structural)]
pub enum Stage {
    Input,
    Compositing,
}

/// Before or after a stage.
#[derive(Debug, Clone, Copy, PartialEq, Eq, Structural)]
pub enum StagePosition {
    Pre,
    Post,
}

/// What the text mode does around a stage, for a document of
/// `doc_size` bytes whose history holds `buffer_log_len` changes, the
/// current one being `buffer_log_pos`. Before the input, the revisions of
/// the history and of the marks are noted; after it, the view start is
/// kept in the document, and the marks are queued for saving when they
/// changed, or when the document changed after a move of the marks. Around
/// the layout, the queued actions are taken out and returned, for the
/// caller to run in order (see `run_text_mode_action`). A read-cache update
/// is queued first in any case.
pub fn run_text_mode_actions<C: TextCodec>(
    tm: &mut TextModeContext<C>,
    stage: Stage,
    pos: StagePosition,
    start_offset: &mut u64,
    doc_size: u64,
    buffer_log_len: usize,
    buffer_log_pos: usize,
) -> (actions: Vec<PostInputAction>)
    ensures
        final(tm).marks == old(tm).marks,
        final(tm).mark_index == old(tm).mark_index,
        final(tm).select_point == old(tm).select_point,
        final(tm).copy_buffer == old(tm).copy_buffer,
        final(tm).prev_action == old(tm).prev_action,
        final(tm).text_codec == old(tm).text_codec,
        final(tm).mark_revision == old(tm).mark_revision,
        ({
            let queued = old(tm).pre_compose_action@.push(PostInputAction::UpdateReadCache);
            match (stage, pos) {
                (Stage::Input, StagePosition::Pre) => {
                    &&& actions@.len() == 0
                    &&& final(tm).prev_buffer_log_revision == buffer_log_len
                    &&& final(tm).prev_mark_revision == old(tm).mark_revision
                    &&& final(tm).pre_compose_action@ == queued
                    &&& final(tm).post_compose_action == old(tm).post_compose_action
                    &&& *final(start_offset) == *old(start_offset)
                },
                (Stage::Input, StagePosition::Post) => {
                    let save = old(tm).prev_mark_revision != old(tm).mark_revision || (buffer_log_pos
                        > old(tm).prev_buffer_log_revision && old(tm).prev_action == TextModeAction::MarksMove);
                    &&& actions@.len() == 0
                    &&& final(tm).prev_buffer_log_revision == old(tm).prev_buffer_log_revision
                    &&& final(tm).prev_mark_revision == old(tm).prev_mark_revision
                    &&& *final(start_offset) == if *old(start_offset) < doc_size {
                        *old(start_offset)
                    } else {
                        doc_size
                    }
                    &&& final(tm).pre_compose_action@ == if save {
                        queued.push(PostInputAction::DeduplicateAndSaveMarks { caller: "run_text_mode_actions" }).push(
                            PostInputAction::CheckMarks,
                        )
                    } else {
                        queued
                    }
                    &&& final(tm).post_compose_action == old(tm).post_compose_action
                },
                (Stage::Compositing, StagePosition::Pre) => {
                    &&& actions@ == queued
                    &&& final(tm).pre_compose_action@.len() == 0
                    &&& final(tm).post_compose_action == old(tm).post_compose_action
                    &&& final(tm).prev_buffer_log_revision == old(tm).prev_buffer_log_revision
                    &&& final(tm).prev_mark_revision == old(tm).prev_mark_revision
                    &&& *final(start_offset) == *old(start_offset)
                },
                (Stage::Compositing, StagePosition::Post) => {
                    &&& actions@ == old(tm).post_compose_action@
                    &&& final(tm).pre_compose_action@ == queued
                    &&& final(tm).post_compose_action@.len() == 0
                    &&& final(tm).prev_buffer_log_revision == old(tm).prev_buffer_log_revision
                    &&& final(tm).prev_mark_revision == old(tm).prev_mark_revision
                    &&& *final(start_offset) == *old(start_offset)
                },
            }
        }),
{
    tm.pre_compose_action.push(PostInputAction::UpdateReadCache);
    match (stage, pos) {
        (Stage::Input, StagePosition::Pre) => {
            tm.prev_buffer_log_revision = buffer_log_len;
            tm.prev_mark_revision = tm.mark_revision;
            Vec::new()
        },
        (Stage::Input, StagePosition::Post) => {
            if doc_size < *start_offset {
                *start_offset = doc_size;
            }
            let save_marks = tm.prev_mark_revision != tm.mark_revision || (buffer_log_pos
                > tm.prev_buffer_log_revision && tm.prev_action == TextModeAction::MarksMove);
            if save_marks {
                tm.pre_compose_action.push(
                    PostInputAction::DeduplicateAndSaveMarks { caller: "run_text_mode_actions" },
                );
                tm.pre_compose_action.push(PostInputAction::CheckMarks);
            }
            Vec::new()
        },
        (Stage::Compositing, StagePosition::Pre) => {
            let mut actions: Vec<PostInputAction> = Vec::new();
            std::mem::swap(&mut actions, &mut tm.pre_compose_action);
            actions
        },
        (Stage::Compositing, StagePosition::Post) => {
            let mut actions: Vec<PostInputAction> = Vec::new();
            std::mem::swap(&mut actions, &mut tm.post_compose_action);
            actions
        },
    }
}

} // verus!
