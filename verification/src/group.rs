//! A group of two branches over one cursor: what a run of it gives, as a
//! mathematical model, and draining it.

use crate::cursor::{Fatal, SharedCursor};
use crate::split::{BranchPoll, SplitCase};
use vstd::prelude::*;

verus! {

/// What one poll of a branch with predicate `claims` and extractor `narrows`
/// reports over a released cursor that holds `items`, and what it leaves.
pub open spec fn poll_outcome<Item, Case>(
    claims: spec_fn(Item) -> bool,
    narrows: spec_fn(Item) -> Option<Case>,
    items: Seq<Item>,
) -> (BranchPoll<Case>, Seq<Item>) {
    if items.len() == 0 {
        (BranchPoll::Exhausted, items)
    } else if !claims(items[0]) {
        (BranchPoll::Pending, items)
    } else {
        match narrows(items[0]) {
            Some(case) => (BranchPoll::Item(case), items.drop_first()),
            None => (BranchPoll::Fatal(Fatal::ExtractorMismatch), items.drop_first()),
        }
    }
}

/// What a branch with predicate `claims` and extractor `narrows` gives when
/// every item of `items` is consumed: the narrowed items that it claims, in
/// the order of `items`.
pub open spec fn given<Item, Case>(
    claims: spec_fn(Item) -> bool,
    narrows: spec_fn(Item) -> Option<Case>,
    items: Seq<Item>,
) -> Seq<Case>
    decreases items.len(),
{
    if items.len() == 0 {
        Seq::empty()
    } else {
        let before = given(claims, narrows, items.drop_last());
        if claims(items.last()) && narrows(items.last()) is Some {
            before.push(narrows(items.last())->0)
        } else {
            before
        }
    }
}

/// A group of two branches over a cursor that holds `items`, polled once
/// for each entry of `schedule`: the first branch where the entry is `true`,
/// the second where it is `false`. The result is what the first branch has
/// given, what the second has given, and what the cursor still holds. A poll
/// that ends in the fatal outcome gives nothing; its item is gone.
pub open spec fn run_group<Item, A, B>(
    claims_a: spec_fn(Item) -> bool,
    narrows_a: spec_fn(Item) -> Option<A>,
    claims_b: spec_fn(Item) -> bool,
    narrows_b: spec_fn(Item) -> Option<B>,
    items: Seq<Item>,
    schedule: Seq<bool>,
) -> (Seq<A>, Seq<B>, Seq<Item>)
    decreases schedule.len(),
{
    if schedule.len() == 0 {
        (Seq::empty(), Seq::empty(), items)
    } else {
        let so_far = run_group(claims_a, narrows_a, claims_b, narrows_b, items, schedule.drop_last());
        if schedule.last() {
            match poll_outcome(claims_a, narrows_a, so_far.2) {
                (BranchPoll::Item(case), rest) => (so_far.0.push(case), so_far.1, rest),
                (_, rest) => (so_far.0, so_far.1, rest),
            }
        } else {
            match poll_outcome(claims_b, narrows_b, so_far.2) {
                (BranchPoll::Item(case), rest) => (so_far.0, so_far.1.push(case), rest),
                (_, rest) => (so_far.0, so_far.1, rest),
            }
        }
    }
}

/// How a drain of a group ended.
#[derive(Clone, Copy, Debug, PartialEq, Eq, Structural)]
pub enum GroupEnd {
    /// Every item was consumed.
    Exhausted,
    /// The head item is claimed by no branch: no poll will get past it.
    Stalled,
    /// The caller broke the contract of the group.
    Fatal(Fatal),
}

/// What a drain of two branches gives over a released cursor that holds
/// `items`: each item goes to the first branch if it claims the item, else
/// to the second if that claims it. The drain ends at the first item that
/// neither claims, or that its branch cannot narrow, or at the end of the
/// source. The result is what the first branch gave, what the second gave,
/// what the cursor still holds, and how the drain ended.
pub open spec fn drained<Item, A, B>(
    claims_a: spec_fn(Item) -> bool,
    narrows_a: spec_fn(Item) -> Option<A>,
    claims_b: spec_fn(Item) -> bool,
    narrows_b: spec_fn(Item) -> Option<B>,
    items: Seq<Item>,
) -> (Seq<A>, Seq<B>, Seq<Item>, GroupEnd)
    decreases items.len(),
{
    if items.len() == 0 {
        (Seq::empty(), Seq::empty(), items, GroupEnd::Exhausted)
    } else if claims_a(items[0]) {
        match narrows_a(items[0]) {
            Some(case) => {
                let later = drained(claims_a, narrows_a, claims_b, narrows_b, items.drop_first());
                (seq![case] + later.0, later.1, later.2, later.3)
            },
            None => (
                Seq::empty(),
                Seq::empty(),
                items.drop_first(),
                GroupEnd::Fatal(Fatal::ExtractorMismatch),
            ),
        }
    } else if claims_b(items[0]) {
        match narrows_b(items[0]) {
            Some(case) => {
                let later = drained(claims_a, narrows_a, claims_b, narrows_b, items.drop_first());
                (later.0, seq![case] + later.1, later.2, later.3)
            },
            None => (
                Seq::empty(),
                Seq::empty(),
                items.drop_first(),
                GroupEnd::Fatal(Fatal::ExtractorMismatch),
            ),
        }
    } else {
        (Seq::empty(), Seq::empty(), items, GroupEnd::Stalled)
    }
}

/// Polls two branches over `cursor`, the first before the second in each
/// round, until the source ends, the group stalls, or a poll is fatal. A
/// stall is detected, not waited for: when both branches decline the head
/// item, nothing can ever consume it.
pub fn drain_group<Item, A, B, PA, XA, PB, XB>(
    first: &SplitCase<Item, A, PA, XA>,
    second: &SplitCase<Item, B, PB, XB>,
    cursor: &mut SharedCursor<Item>,
) -> (out: (Vec<A>, Vec<B>, GroupEnd))
    where
        PA: Fn(&Item) -> bool,
        XA: Fn(Item) -> Option<A>,
        PB: Fn(&Item) -> bool,
        XB: Fn(Item) -> Option<B>,
    requires
        first.wf(),
        second.wf(),
    ensures
        final(cursor).is_held() == old(cursor).is_held(),
        old(cursor).is_held() ==> out.0@.len() == 0 && out.1@.len() == 0 && out.2 == GroupEnd::Fatal(
            Fatal::ReentrantAccess,
        ) && final(cursor).remaining() == old(cursor).remaining(),
        !old(cursor).is_held() ==> forall|
            claims_a: spec_fn(Item) -> bool,
            narrows_a: spec_fn(Item) -> Option<A>,
            claims_b: spec_fn(Item) -> bool,
            narrows_b: spec_fn(Item) -> Option<B>,
        |
            first.follows(claims_a, narrows_a) && second.follows(claims_b, narrows_b) ==> #[trigger] drained(
                claims_a,
                narrows_a,
                claims_b,
                narrows_b,
                old(cursor).remaining(),
            ) == (out.0@, out.1@, final(cursor).remaining(), out.2),
{
    let ghost all = cursor.remaining();
    let ghost held = cursor.is_held();
    let ghost mut at = all;
    let mut firsts: Vec<A> = Vec::new();
    let mut seconds: Vec<B> = Vec::new();
    let mut end: Option<GroupEnd> = None;
    while end.is_none()
        invariant
            first.wf(),
            second.wf(),
            cursor.is_held() == held,
            end is None ==> at == cursor.remaining(),
            held ==> firsts@.len() == 0 && seconds@.len() == 0 && cursor.remaining() == all,
            held && end is Some ==> end == Some(GroupEnd::Fatal(Fatal::ReentrantAccess)),
            !held ==> forall|
                claims_a: spec_fn(Item) -> bool,
                narrows_a: spec_fn(Item) -> Option<A>,
                claims_b: spec_fn(Item) -> bool,
                narrows_b: spec_fn(Item) -> Option<B>,
            |
                first.follows(claims_a, narrows_a) && second.follows(claims_b, narrows_b) ==> ({
                    let later = drained(claims_a, narrows_a, claims_b, narrows_b, at);
                    #[trigger] drained(claims_a, narrows_a, claims_b, narrows_b, all) == (
                        firsts@ + later.0,
                        seconds@ + later.1,
                        later.2,
                        later.3,
                    )
                }),
            !held && end is Some ==> forall|
                claims_a: spec_fn(Item) -> bool,
                narrows_a: spec_fn(Item) -> Option<A>,
                claims_b: spec_fn(Item) -> bool,
                narrows_b: spec_fn(Item) -> Option<B>,
            |
                first.follows(claims_a, narrows_a) && second.follows(claims_b, narrows_b) ==> #[trigger] drained(
                    claims_a,
                    narrows_a,
                    claims_b,
                    narrows_b,
                    at,
                ) == (Seq::<A>::empty(), Seq::<B>::empty(), cursor.remaining(), end->0),
        decreases cursor.remaining().len() + (if end is None { 1nat } else { 0nat }),
    {
        let ghost had_firsts = firsts@;
        let ghost had_seconds = seconds@;
        let ghost mut more_firsts: Seq<A> = Seq::empty();
        let ghost mut more_seconds: Seq<B> = Seq::empty();
        match first.poll_next(cursor) {
            BranchPoll::Item(case) => {
                firsts.push(case);
                proof {
                    more_firsts = seq![case];
                }
            },
            BranchPoll::Exhausted => {
                end = Some(GroupEnd::Exhausted);
            },
            BranchPoll::Fatal(fatal) => {
                end = Some(GroupEnd::Fatal(fatal));
            },
            BranchPoll::Pending => {
                match second.poll_next(cursor) {
                    BranchPoll::Item(case) => {
                        seconds.push(case);
                        proof {
                            more_seconds = seq![case];
                        }
                    },
                    BranchPoll::Pending => {
                        end = Some(GroupEnd::Stalled);
                    },
                    BranchPoll::Exhausted => {
                        end = Some(GroupEnd::Exhausted);
                    },
                    BranchPoll::Fatal(fatal) => {
                        end = Some(GroupEnd::Fatal(fatal));
                    },
                }
            },
        }
        proof {
            if end is None {
                at = cursor.remaining();
                assert(firsts@ == had_firsts + more_firsts);
                assert(seconds@ == had_seconds + more_seconds);
                assert forall|
                    claims_a: spec_fn(Item) -> bool,
                    narrows_a: spec_fn(Item) -> Option<A>,
                    claims_b: spec_fn(Item) -> bool,
                    narrows_b: spec_fn(Item) -> Option<B>,
                |
                    first.follows(claims_a, narrows_a) && second.follows(
                        claims_b,
                        narrows_b,
                    ) implies ({
                    let later = drained(claims_a, narrows_a, claims_b, narrows_b, at);
                    #[trigger] drained(claims_a, narrows_a, claims_b, narrows_b, all) == (
                        firsts@ + later.0,
                        seconds@ + later.1,
                        later.2,
                        later.3,
                    )
                }) by {
                    let later = drained(claims_a, narrows_a, claims_b, narrows_b, at);
                    assert((had_firsts + more_firsts) + later.0 == had_firsts + (more_firsts + later.0));
                    assert((had_seconds + more_seconds) + later.1 == had_seconds + (more_seconds
                        + later.1));
                    assert(Seq::<A>::empty() + later.0 == later.0);
                    assert(Seq::<B>::empty() + later.1 == later.1);
                }
            }
        }
    }
    proof {
        assert(firsts@ + Seq::<A>::empty() == firsts@);
        assert(seconds@ + Seq::<B>::empty() == seconds@);
    }
    match end {
        Some(end) => (firsts, seconds, end),
        None => (firsts, seconds, GroupEnd::Exhausted),
    }
}

} // verus!
