//! What holds of every scan, whatever the display server answers.

use crate::classifier::verdict;
use crate::classifier::MapState;
use crate::classifier::Verdict;
use crate::scanner::asked_after;
use crate::scanner::next;
use crate::scanner::state_after;
use crate::scanner::steps_left;
use crate::scanner::Phase;
use crate::scanner::Property;
use crate::scanner::Reply;
use crate::scanner::Request;
use crate::scanner::ScanError;
use crate::scanner::ScanState;
use crate::text::trimmed;
use crate::text::utf8_lossy;
use vstd::prelude::*;

verus! {

/// The last thing told was that `window`, asked for its map state, is
/// viewable.
pub open spec fn viewed(targets: Seq<Seq<char>>, replies: Seq<Reply>, window: u32) -> bool {
    &&& replies.len() >= 1
    &&& asked_after(targets, replies.drop_last()) == Request::GetAttributes { window }
    &&& replies.last() == Reply::Attributes { map_state: MapState::Viewable }
}

/// `window` was found viewable, and the last thing told was its class
/// property, which reads `class`.
pub open spec fn classed(
    targets: Seq<Seq<char>>,
    replies: Seq<Reply>,
    window: u32,
    class: Seq<char>,
) -> bool {
    &&& replies.len() >= 2
    &&& viewed(targets, replies.drop_last(), window)
    &&& asked_after(targets, replies.drop_last()) == Request::GetProperty {
        window,
        property: Property::Class,
    }
    &&& replies.last() matches Reply::Text { value }
    &&& class == trimmed(utf8_lossy(value@))
}

/// `window` was found viewable and of class `class`, and the last thing told
/// was its name property.
pub open spec fn named(
    targets: Seq<Seq<char>>,
    replies: Seq<Reply>,
    window: u32,
    class: Seq<char>,
) -> bool {
    &&& replies.len() >= 3
    &&& classed(targets, replies.drop_last(), window, class)
    &&& asked_after(targets, replies.drop_last()) == Request::GetProperty {
        window,
        property: Property::Name,
    }
    &&& replies.last() is Text
}

/// `window` was found viewable and of class `class`, and the last thing told
/// was its size, `width` by `height`.
pub open spec fn measured(
    targets: Seq<Seq<char>>,
    replies: Seq<Reply>,
    window: u32,
    class: Seq<char>,
    width: u32,
    height: u32,
) -> bool {
    &&& replies.len() >= 4
    &&& named(targets, replies.drop_last(), window, class)
    &&& asked_after(targets, replies.drop_last()) == Request::GetGeometry { window }
    &&& replies.last() == Reply::Geometry { width, height }
}

/// What a scan that was told `replies` knows of the window in hand.
spec fn backed(targets: Seq<Seq<char>>, replies: Seq<Reply>) -> bool {
    let s = state_after(targets, replies);
    &&& s.wf()
    &&& s.targets == targets
    &&& match s.phase {
        Phase::Tree => asked_after(targets, replies) == Request::QueryTree,
        Phase::Attributes => asked_after(targets, replies) == Request::GetAttributes {
            window: s.window(),
        },
        Phase::Class => {
            &&& viewed(targets, replies, s.window())
            &&& asked_after(targets, replies) == Request::GetProperty {
                window: s.window(),
                property: Property::Class,
            }
        },
        Phase::Name => {
            &&& classed(targets, replies, s.window(), s.class_name)
            &&& asked_after(targets, replies) == Request::GetProperty {
                window: s.window(),
                property: Property::Name,
            }
        },
        Phase::Geometry => {
            &&& named(targets, replies, s.window(), s.class_name)
            &&& asked_after(targets, replies) == Request::GetGeometry { window: s.window() }
        },
        Phase::Unmap => asked_after(targets, replies) is Unmap,
        Phase::Flush => asked_after(targets, replies) == Request::Flush,
        Phase::Finished => asked_after(targets, replies) == Request::Finish { outcome: Ok(()) },
        Phase::Failed => asked_after(targets, replies) == Request::Finish {
            outcome: Err(ScanError::TreeUnavailable),
        },
    }
}

proof fn lemma_backed(targets: Seq<Seq<char>>, replies: Seq<Reply>)
    ensures
        backed(targets, replies),
    decreases replies.len(),
{
    if replies.len() > 0 {
        lemma_backed(targets, replies.drop_last());
    }
}

/// A step keeps the window in hand among the children, keeps the targets,
/// and keeps the children once they are known.
pub proof fn lemma_step_keeps_shape(s: ScanState, reply: Reply)
    requires
        s.wf(),
    ensures
        next(s, reply).0.wf(),
        next(s, reply).0.targets == s.targets,
        s.phase != Phase::Tree ==> next(s, reply).0.children == s.children,
{
}

/// The children are taken in hand one after the other, in the order in which
/// the server told them: a step stays with the window in hand or turns to
/// the child that follows it, and whatever is asked of a window is asked of
/// the window in hand.
pub proof fn lemma_windows_in_order(s: ScanState, reply: Reply)
    requires
        s.wf(),
    ensures
        s.in_window() ==> next(s, reply).0.position == s.position
            || next(s, reply).0.position == s.position + 1,
        s.phase == Phase::Tree && next(s, reply).0.in_window() ==> next(s, reply).0.position == 0,
        match next(s, reply).1 {
            Request::GetAttributes { window } => next(s, reply).0.in_window() && window == next(
                s,
                reply,
            ).0.window(),
            Request::GetProperty { window, property } => next(s, reply).0.in_window() && window
                == next(s, reply).0.window(),
            Request::GetGeometry { window } => next(s, reply).0.in_window() && window == next(
                s,
                reply,
            ).0.window(),
            Request::Unmap { window, width, height } => next(s, reply).0.in_window() && window
                == next(s, reply).0.window(),
            _ => true,
        },
{
}

/// A window that is not reported viewable is asked nothing more: the scan
/// turns to the next child.
pub proof fn lemma_hidden_window_is_left(s: ScanState, reply: Reply)
    requires
        s.wf(),
        s.phase == Phase::Attributes,
        reply != (Reply::Attributes { map_state: MapState::Viewable }),
    ensures
        next(s, reply) == crate::scanner::skip_window(s),
{
}

/// A failed round trip about a window costs that window only: the scan
/// turns to the next child, and does not end in an error.
pub proof fn lemma_failure_skips_window(s: ScanState)
    requires
        s.wf(),
        s.in_window(),
    ensures
        next(s, Reply::Failed) == crate::scanner::skip_window(s),
        next(s, Reply::Failed).1 != (Request::Finish { outcome: Err(ScanError::TreeUnavailable) }),
{
}

/// An unmapping that fails, as one may where the window is gone or was
/// unmapped meanwhile, is not the scan's failure: the scan turns to the next
/// child, or ends well where there is none.
pub proof fn lemma_failed_unmap_is_passed_over(targets: Seq<Seq<char>>, replies: Seq<Reply>)
    requires
        asked_after(targets, replies) is Unmap,
    ensures
        asked_after(targets, replies.push(Reply::Failed)) is GetAttributes || asked_after(
            targets,
            replies.push(Reply::Failed),
        ) == (Request::Finish { outcome: Ok(()) }),
{
    lemma_backed(targets, replies);
    assert(replies.push(Reply::Failed).drop_last() =~= replies);
}

/// A scan ends in an error where the children of the root could not be had,
/// and nowhere else.
pub proof fn lemma_error_is_no_tree(targets: Seq<Seq<char>>, replies: Seq<Reply>)
    ensures
        asked_after(targets, replies) == (Request::Finish {
            outcome: Err(ScanError::TreeUnavailable),
        }) <==> replies.len() > 0 && !(replies[0] is Tree),
{
    if replies.len() > 0 {
        let before = replies.drop_last();
        lemma_tree_phase_is_start(targets, before);
        if before.len() > 0 {
            assert(before[0] == replies[0]);
        }
    }
}

/// A scan waits for the tree until it is told anything, and not after.
pub proof fn lemma_tree_phase_is_start(targets: Seq<Seq<char>>, replies: Seq<Reply>)
    ensures
        state_after(targets, replies).phase == Phase::Tree <==> replies.len() == 0,
        state_after(targets, replies).phase == Phase::Failed <==> replies.len() > 0 && !(
        replies[0] is Tree),
    decreases replies.len(),
{
    if replies.len() > 0 {
        let before = replies.drop_last();
        lemma_tree_phase_is_start(targets, before);
        if before.len() > 0 {
            assert(before[0] == replies[0]);
        }
    }
}

/// No window is unmapped without cause. Where a scan asks to unmap a window,
/// the four answers before were about that window: it is viewable, its class
/// property reads some text, its name property was read, and it has the size
/// that the request gives; and the classifier's verdict on that class and
/// size is a match.
pub proof fn lemma_unmap_is_backed(
    targets: Seq<Seq<char>>,
    replies: Seq<Reply>,
    window: u32,
    width: u32,
    height: u32,
) -> (class: Seq<char>)
    requires
        asked_after(targets, replies) == (Request::Unmap { window, width, height }),
    ensures
        measured(targets, replies, window, class, width, height),
        verdict(MapState::Viewable, class, targets, width, height) == Verdict::Match,
{
    let before = replies.drop_last();
    lemma_backed(targets, before);
    state_after(targets, before).class_name
}

/// Every shadow that is seen is unmapped. Where the four answers about a
/// window say that it is viewable, what its class is and what its size, and
/// the classifier's verdict on them is a match, the scan asks next to unmap
/// that window.
pub proof fn lemma_shadow_is_unmapped(
    targets: Seq<Seq<char>>,
    replies: Seq<Reply>,
    window: u32,
    class: Seq<char>,
    width: u32,
    height: u32,
)
    requires
        measured(targets, replies, window, class, width, height),
        verdict(MapState::Viewable, class, targets, width, height) == Verdict::Match,
    ensures
        asked_after(targets, replies) == (Request::Unmap { window, width, height }),
{
    let before = replies.drop_last();
    lemma_backed(targets, before);
}

/// A flush is asked after an unmapping that was done, and only then; and an
/// unmapping that was done is always followed by a flush.
pub proof fn lemma_flush_follows_unmap(targets: Seq<Seq<char>>, replies: Seq<Reply>)
    ensures
        asked_after(targets, replies) == Request::Flush <==> replies.len() > 0 && replies.last()
            == Reply::Done && asked_after(targets, replies.drop_last()) is Unmap,
{
    lemma_backed(targets, replies);
    if replies.len() > 0 {
        lemma_backed(targets, replies.drop_last());
    }
}

/// Every answer about a window brings the scan nearer to its end, and a scan
/// that is over stays so.
pub proof fn lemma_step_makes_progress(s: ScanState, reply: Reply)
    requires
        s.wf(),
    ensures
        s.in_window() ==> steps_left(next(s, reply).0) < steps_left(s),
        s.is_over() ==> next(s, reply).0 == s,
{
}

/// While a window is in hand, every further answer leaves the scan over or
/// nearer to its end, with the same children.
proof fn lemma_steps_decrease(targets: Seq<Seq<char>>, replies: Seq<Reply>, k: int, l: int)
    requires
        0 <= k < l <= replies.len(),
        state_after(targets, replies.take(k)).in_window(),
    ensures
        state_after(targets, replies.take(l)).is_over() || (state_after(
            targets,
            replies.take(l),
        ).in_window() && steps_left(state_after(targets, replies.take(l))) < steps_left(
            state_after(targets, replies.take(k)),
        ) && state_after(targets, replies.take(l)).children == state_after(
            targets,
            replies.take(k),
        ).children),
    decreases l - k,
{
    let before = replies.take(l - 1);
    assert(replies.take(l).drop_last() =~= before);
    lemma_backed(targets, before);
    lemma_step_makes_progress(state_after(targets, before), replies.take(l).last());
    if l - 1 > k {
        lemma_steps_decrease(targets, replies, k, l - 1);
    }
}

/// No child is unmapped twice in one scan: where a scan asks for an
/// unmapping a second time, it has moved on to a later child.
pub proof fn lemma_unmap_once_per_child(
    targets: Seq<Seq<char>>,
    replies: Seq<Reply>,
    k: int,
    l: int,
)
    requires
        0 <= k < l <= replies.len(),
        asked_after(targets, replies.take(k)) is Unmap,
        asked_after(targets, replies.take(l)) is Unmap,
    ensures
        state_after(targets, replies.take(k)).position < state_after(
            targets,
            replies.take(l),
        ).position,
        state_after(targets, replies.take(k)).children == state_after(
            targets,
            replies.take(l),
        ).children,
{
    lemma_backed(targets, replies.take(k));
    lemma_backed(targets, replies.take(l));
    lemma_steps_decrease(targets, replies, k, l);
}

/// A scan ends. Told that the tree could not be had, it is over at once,
/// with an error; told of `n` children, it is over after six answers for
/// each of them at the latest, and well.
pub proof fn lemma_scan_ends(targets: Seq<Seq<char>>, replies: Seq<Reply>)
    requires
        replies.len() >= 1,
    ensures
        match replies[0] {
            Reply::Tree { children } => replies.len() > 6 * children@.len() ==> asked_after(
                targets,
                replies,
            ) == (Request::Finish { outcome: Ok(()) }),
            _ => asked_after(targets, replies) == (Request::Finish {
                outcome: Err(ScanError::TreeUnavailable),
            }),
        },
{
    lemma_error_is_no_tree(targets, replies);
    lemma_backed(targets, replies);
    lemma_countdown(targets, replies);
}

proof fn lemma_countdown(targets: Seq<Seq<char>>, replies: Seq<Reply>)
    requires
        replies.len() >= 1,
    ensures
        replies[0] matches Reply::Tree { children } ==> state_after(targets, replies).is_over()
            || steps_left(state_after(targets, replies)) + replies.len() <= 1 + 6
            * children@.len(),
        replies[0] matches Reply::Tree { children } ==> state_after(targets, replies).children
            == children@,
    decreases replies.len(),
{
    let before = replies.drop_last();
    lemma_backed(targets, before);
    if before.len() > 0 {
        assert(before[0] == replies[0]);
        lemma_countdown(targets, before);
        lemma_tree_phase_is_start(targets, before);
        lemma_step_makes_progress(state_after(targets, before), replies.last());
    } else {
        assert(replies.last() == replies[0]);
    }
}

} // verus!
