//! What holds of every run of a group of two branches, in whatever order
//! its branches are polled.

use crate::cursor::Fatal;
use crate::group::{drained, given, poll_outcome, run_group, GroupEnd};
use crate::split::{
    claims_error, claims_success, errors, narrows_error, narrows_success, successes, BranchPoll, SplitCase,
};
use vstd::multiset::Multiset;
use vstd::prelude::*;

verus! {

impl<Item, Case, P: Fn(&Item) -> bool, X: Fn(Item) -> Option<Case>> SplitCase<Item, Case, P, X> {
    /// A poll of a branch whose predicate and extractor are functions of the
    /// item is determined by what the cursor holds.
    pub proof fn lemma_poll_is_determined(
        &self,
        claims: spec_fn(Item) -> bool,
        narrows: spec_fn(Item) -> Option<Case>,
        items: Seq<Item>,
        polled: BranchPoll<Case>,
        rest: Seq<Item>,
    )
        requires
            self.follows(claims, narrows),
            self.polls(items, polled, rest),
        ensures
            (polled, rest) == poll_outcome(claims, narrows, items),
    {
    }

    /// A branch whose predicate takes the head item while its extractor
    /// gives nothing for it ends in the fatal outcome, and the item is gone.
    pub proof fn lemma_mismatch_is_fatal(
        &self,
        claims: spec_fn(Item) -> bool,
        narrows: spec_fn(Item) -> Option<Case>,
        items: Seq<Item>,
        polled: BranchPoll<Case>,
        rest: Seq<Item>,
    )
        requires
            self.follows(claims, narrows),
            self.polls(items, polled, rest),
            items.len() > 0,
            claims(items[0]),
            narrows(items[0]) is None,
        ensures
            polled == BranchPoll::<Case>::Fatal(Fatal::ExtractorMismatch),
            rest == items.drop_first(),
    {
    }

    /// A branch that does not claim the head item reports that nothing is
    /// ready and leaves the cursor as it was.
    pub proof fn lemma_declined_head_stays(
        &self,
        claims: spec_fn(Item) -> bool,
        narrows: spec_fn(Item) -> Option<Case>,
        items: Seq<Item>,
        polled: BranchPoll<Case>,
        rest: Seq<Item>,
    )
        requires
            self.follows(claims, narrows),
            self.polls(items, polled, rest),
            items.len() > 0,
            !claims(items[0]),
        ensures
            polled is Pending,
            rest == items,
    {
    }
}

/// Two branches of which each item is claimed by exactly one, each with an
/// extractor that narrows what its predicate claims, lose and repeat
/// nothing, in whatever order they are polled: the cursor holds a suffix of
/// the source, and each branch has given exactly its own items of the
/// consumed prefix, in the order of the source.
pub proof fn lemma_group_partitions<Item, A, B>(
    claims_a: spec_fn(Item) -> bool,
    narrows_a: spec_fn(Item) -> Option<A>,
    claims_b: spec_fn(Item) -> bool,
    narrows_b: spec_fn(Item) -> Option<B>,
    items: Seq<Item>,
    schedule: Seq<bool>,
)
    requires
        forall|item: Item| #[trigger] claims_a(item) == !claims_b(item),
        forall|item: Item| #[trigger] claims_a(item) ==> narrows_a(item) is Some,
        forall|item: Item| #[trigger] claims_b(item) ==> narrows_b(item) is Some,
    ensures
        ({
            let run = run_group(claims_a, narrows_a, claims_b, narrows_b, items, schedule);
            let consumed = items.len() - run.2.len();
            &&& 0 <= consumed <= items.len()
            &&& run.2 == items.skip(consumed)
            &&& run.0 == given(claims_a, narrows_a, items.take(consumed))
            &&& run.1 == given(claims_b, narrows_b, items.take(consumed))
        }),
    decreases schedule.len(),
{
    if schedule.len() == 0 {
        assert(items.skip(0) == items);
        assert(items.take(0).len() == 0);
    } else {
        lemma_group_partitions(claims_a, narrows_a, claims_b, narrows_b, items, schedule.drop_last());
        let so_far = run_group(claims_a, narrows_a, claims_b, narrows_b, items, schedule.drop_last());
        let consumed = items.len() - so_far.2.len();
        if so_far.2.len() > 0 {
            let head = so_far.2[0];
            assert(head == items[consumed]);
            assert(items.take(consumed + 1).drop_last() == items.take(consumed));
            assert(items.take(consumed + 1).last() == head);
            assert(so_far.2.drop_first() == items.skip(consumed + 1));
        }
    }
}

/// Once every item is consumed, each of two such branches has given exactly
/// its own items of the whole source, in the order of the source.
pub proof fn lemma_finished_run_gives_all<Item, A, B>(
    claims_a: spec_fn(Item) -> bool,
    narrows_a: spec_fn(Item) -> Option<A>,
    claims_b: spec_fn(Item) -> bool,
    narrows_b: spec_fn(Item) -> Option<B>,
    items: Seq<Item>,
    schedule: Seq<bool>,
)
    requires
        forall|item: Item| #[trigger] claims_a(item) == !claims_b(item),
        forall|item: Item| #[trigger] claims_a(item) ==> narrows_a(item) is Some,
        forall|item: Item| #[trigger] claims_b(item) ==> narrows_b(item) is Some,
        run_group(claims_a, narrows_a, claims_b, narrows_b, items, schedule).2.len() == 0,
    ensures
        run_group(claims_a, narrows_a, claims_b, narrows_b, items, schedule).0 == given(
            claims_a,
            narrows_a,
            items,
        ),
        run_group(claims_a, narrows_a, claims_b, narrows_b, items, schedule).1 == given(
            claims_b,
            narrows_b,
            items,
        ),
{
    lemma_group_partitions(claims_a, narrows_a, claims_b, narrows_b, items, schedule);
    assert(items.take(items.len() as int) == items);
}

/// While the head item is claimed by none of the branches that are polled,
/// no poll gets past it: nothing is given and the cursor keeps every item,
/// however long the group is polled. This is so where no branch claims the
/// item, and where the one that claims it is no longer polled.
pub proof fn lemma_unclaimed_head_stalls<Item, A, B>(
    claims_a: spec_fn(Item) -> bool,
    narrows_a: spec_fn(Item) -> Option<A>,
    claims_b: spec_fn(Item) -> bool,
    narrows_b: spec_fn(Item) -> Option<B>,
    items: Seq<Item>,
    schedule: Seq<bool>,
)
    requires
        items.len() > 0,
        forall|i: int| 0 <= i < schedule.len() && #[trigger] schedule[i] ==> !claims_a(items[0]),
        forall|i: int| 0 <= i < schedule.len() && !#[trigger] schedule[i] ==> !claims_b(items[0]),
    ensures
        run_group(claims_a, narrows_a, claims_b, narrows_b, items, schedule) == (
            Seq::<A>::empty(),
            Seq::<B>::empty(),
            items,
        ),
    decreases schedule.len(),
{
    if schedule.len() > 0 {
        let earlier = schedule.drop_last();
        assert forall|i: int| 0 <= i < earlier.len() && #[trigger] earlier[i] implies !claims_a(
            items[0],
        ) by {
            assert(earlier[i] == schedule[i]);
        }
        assert forall|i: int| 0 <= i < earlier.len() && !#[trigger] earlier[i] implies !claims_b(
            items[0],
        ) by {
            assert(earlier[i] == schedule[i]);
        }
        lemma_unclaimed_head_stalls(claims_a, narrows_a, claims_b, narrows_b, items, earlier);
        assert(schedule.last() == schedule[schedule.len() - 1]);
    }
}

/// The extractor that gives each item as it is.
pub open spec fn whole<Item>() -> spec_fn(Item) -> Option<Item> {
    |item: Item| Some(item)
}

/// The predicate that claims what `claims` declines.
pub open spec fn complement<Item>(claims: spec_fn(Item) -> bool) -> spec_fn(Item) -> bool {
    |item: Item| !claims(item)
}

/// What a predicate claims of a sequence and what its complement claims are
/// together all of its items, each as often as it occurs.
pub proof fn lemma_complement_holds_the_rest<Item>(claims: spec_fn(Item) -> bool, items: Seq<Item>)
    ensures
        items.to_multiset() == given(claims, whole(), items).to_multiset().add(
            given(complement(claims), whole(), items).to_multiset(),
        ),
    decreases items.len(),
{
    broadcast use vstd::multiset::group_multiset_axioms;

    let mine = given(claims, whole(), items);
    let rest = given(complement(claims), whole(), items);
    if items.len() == 0 {
        assert(mine == items);
        assert(rest == items);
        assert(items + items == items);
        vstd::seq_lib::lemma_multiset_commutative(items, items);
    } else {
        let front = items.drop_last();
        let last = items.last();
        lemma_complement_holds_the_rest(claims, front);
        assert(items == front.push(last));
        vstd::seq_lib::to_multiset_build(front, last);
        vstd::seq_lib::to_multiset_build(given(claims, whole(), front), last);
        vstd::seq_lib::to_multiset_build(given(complement(claims), whole(), front), last);
    }
    assert(items.to_multiset() =~= mine.to_multiset().add(rest.to_multiset()));
}

/// Merging what a predicate claims and what its complement claims again, in
/// any order that keeps the order within each branch, gives exactly the
/// items of the source, each as often as it occurred there.
pub proof fn lemma_remerge_of_complement_keeps_every_item<Item>(
    claims: spec_fn(Item) -> bool,
    items: Seq<Item>,
    merged: Seq<Item>,
)
    requires
        given(claims, whole(), merged) == given(claims, whole(), items),
        given(complement(claims), whole(), merged) == given(complement(claims), whole(), items),
    ensures
        merged.to_multiset() == items.to_multiset(),
{
    lemma_complement_holds_the_rest(claims, items);
    lemma_complement_holds_the_rest(claims, merged);
}

/// The items of a fallible sequence, counted without regard to order, as
/// made up of its successes and its errors.
pub open spec fn items_of_parts<T, E>(values: Seq<T>, failures: Seq<E>) -> Multiset<Result<T, E>> {
    values.map_values(|value: T| Ok::<T, E>(value)).to_multiset().add(
        failures.map_values(|error: E| Err::<T, E>(error)).to_multiset(),
    )
}

/// The successes and the errors of a fallible sequence are together all of
/// its items, each as often as it occurs.
pub proof fn lemma_parts_hold_every_item<T, E>(items: Seq<Result<T, E>>)
    ensures
        items.to_multiset() == items_of_parts(successes(items), errors(items)),
    decreases items.len(),
{
    broadcast use vstd::multiset::group_multiset_axioms;

    if items.len() == 0 {
        assert(successes(items).map_values(|value: T| Ok::<T, E>(value)) == items);
        assert(errors(items).map_values(|error: E| Err::<T, E>(error)) == items);
        assert(items + items == items);
        vstd::seq_lib::lemma_multiset_commutative(items, items);
        assert(items.to_multiset() =~= items_of_parts(successes(items), errors(items)));
    } else {
        let head = seq![items[0]];
        let tail = items.drop_first();
        lemma_parts_hold_every_item(tail);
        assert(items == head + tail);
        vstd::seq_lib::lemma_multiset_commutative(head, tail);
        let values = successes(tail).map_values(|value: T| Ok::<T, E>(value));
        let failures = errors(tail).map_values(|error: E| Err::<T, E>(error));
        match items[0] {
            Ok(value) => {
                assert(successes(items).map_values(|value: T| Ok::<T, E>(value)) == head + values);
                vstd::seq_lib::lemma_multiset_commutative(head, values);
            },
            Err(error) => {
                assert(errors(items).map_values(|error: E| Err::<T, E>(error)) == head + failures);
                vstd::seq_lib::lemma_multiset_commutative(head, failures);
            },
        }
        assert(items.to_multiset() =~= items_of_parts(successes(items), errors(items)));
    }
}

/// Merging the two branches of a fallible sequence again, in any order that
/// keeps the order within each branch, gives exactly the items of the
/// source, each as often as it occurred there.
pub proof fn lemma_remerge_keeps_every_item<T, E>(items: Seq<Result<T, E>>, merged: Seq<Result<T, E>>)
    requires
        successes(merged) == successes(items),
        errors(merged) == errors(items),
    ensures
        merged.to_multiset() == items.to_multiset(),
{
    lemma_parts_hold_every_item(items);
    lemma_parts_hold_every_item(merged);
}

/// A drain of the success branch and the error branch of a fallible
/// sequence always reaches the end of the source: the success branch gives
/// the successes, the error branch the errors, each in the order of the
/// source.
pub proof fn lemma_results_drain_to_the_end<T, E>(items: Seq<Result<T, E>>)
    ensures
        drained(claims_success(), narrows_success(), claims_error(), narrows_error(), items) == (
            successes(items),
            errors(items),
            Seq::<Result<T, E>>::empty(),
            GroupEnd::Exhausted,
        ),
    decreases items.len(),
{
    if items.len() > 0 {
        lemma_results_drain_to_the_end(items.drop_first());
    }
}

/// What a branch gives of `items` is what it gives of the first item,
/// followed by what it gives of the others.
pub proof fn lemma_given_from_the_front<Item, Case>(
    claims: spec_fn(Item) -> bool,
    narrows: spec_fn(Item) -> Option<Case>,
    items: Seq<Item>,
)
    requires
        items.len() > 0,
    ensures
        given(claims, narrows, items) == given(claims, narrows, seq![items[0]]) + given(
            claims,
            narrows,
            items.drop_first(),
        ),
    decreases items.len(),
{
    let head = seq![items[0]];
    assert(head.drop_last() == Seq::<Item>::empty());
    assert(given(claims, narrows, head.drop_last()) == Seq::<Case>::empty());
    if items.len() == 1 {
        assert(items == head);
        assert(items.drop_first() == Seq::<Item>::empty());
        assert(given(claims, narrows, head) + Seq::<Case>::empty() == given(claims, narrows, head));
    } else {
        let front = items.drop_last();
        lemma_given_from_the_front(claims, narrows, front);
        assert(front[0] == items[0]);
        assert(front.drop_first() == items.drop_first().drop_last());
        assert(items.drop_first().last() == items.last());
        let middle = given(claims, narrows, front.drop_first());
        if claims(items.last()) && narrows(items.last()) is Some {
            let case = narrows(items.last())->0;
            assert((given(claims, narrows, head) + middle).push(case) == given(claims, narrows, head)
                + middle.push(case));
        }
    }
}

/// Two branches of which each item is claimed by exactly one, each with an
/// extractor that narrows what its predicate claims, are drained to the end
/// of the source: neither a stall nor a fatal outcome can occur, and each
/// branch gives exactly its own items, in the order of the source.
pub proof fn lemma_complementary_drain_completes<Item, A, B>(
    claims_a: spec_fn(Item) -> bool,
    narrows_a: spec_fn(Item) -> Option<A>,
    claims_b: spec_fn(Item) -> bool,
    narrows_b: spec_fn(Item) -> Option<B>,
    items: Seq<Item>,
)
    requires
        forall|item: Item| #[trigger] claims_a(item) == !claims_b(item),
        forall|item: Item| #[trigger] claims_a(item) ==> narrows_a(item) is Some,
        forall|item: Item| #[trigger] claims_b(item) ==> narrows_b(item) is Some,
    ensures
        drained(claims_a, narrows_a, claims_b, narrows_b, items) == (
            given(claims_a, narrows_a, items),
            given(claims_b, narrows_b, items),
            Seq::<Item>::empty(),
            GroupEnd::Exhausted,
        ),
    decreases items.len(),
{
    if items.len() > 0 {
        let head = seq![items[0]];
        lemma_complementary_drain_completes(claims_a, narrows_a, claims_b, narrows_b, items.drop_first());
        lemma_given_from_the_front(claims_a, narrows_a, items);
        lemma_given_from_the_front(claims_b, narrows_b, items);
        assert(head.drop_last() == Seq::<Item>::empty());
        assert(head.last() == items[0]);
        assert(given(claims_a, narrows_a, head.drop_last()) == Seq::<A>::empty());
        assert(given(claims_b, narrows_b, head.drop_last()) == Seq::<B>::empty());
        if claims_a(items[0]) {
            assert(given(claims_a, narrows_a, head) == seq![narrows_a(items[0])->0]);
            assert(given(claims_b, narrows_b, head) == Seq::<B>::empty());
            assert(Seq::<B>::empty() + given(claims_b, narrows_b, items.drop_first()) == given(
                claims_b,
                narrows_b,
                items.drop_first(),
            ));
        } else {
            assert(claims_b(items[0]));
            assert(given(claims_b, narrows_b, head) == seq![narrows_b(items[0])->0]);
            assert(given(claims_a, narrows_a, head) == Seq::<A>::empty());
            assert(Seq::<A>::empty() + given(claims_a, narrows_a, items.drop_first()) == given(
                claims_a,
                narrows_a,
                items.drop_first(),
            ));
        }
    }
}

/// A drain ends where it says: at the end of the source, or before an item
/// that neither branch claims, or behind an item that its branch could not
/// narrow. What the cursor still holds is the rest of the source from there.
pub proof fn lemma_drain_ends_where_it_says<Item, A, B>(
    claims_a: spec_fn(Item) -> bool,
    narrows_a: spec_fn(Item) -> Option<A>,
    claims_b: spec_fn(Item) -> bool,
    narrows_b: spec_fn(Item) -> Option<B>,
    items: Seq<Item>,
)
    ensures
        ({
            let end = drained(claims_a, narrows_a, claims_b, narrows_b, items);
            let consumed = items.len() - end.2.len();
            &&& 0 <= consumed <= items.len()
            &&& end.2 == items.skip(consumed)
            &&& end.3 == GroupEnd::Exhausted ==> consumed == items.len()
            &&& end.3 == GroupEnd::Stalled ==> consumed < items.len() && !claims_a(items[consumed])
                && !claims_b(items[consumed])
            &&& end.3 is Fatal ==> end.3 == GroupEnd::Fatal(Fatal::ExtractorMismatch) && consumed > 0 && {
                let lost = items[consumed - 1];
                if claims_a(lost) {
                    narrows_a(lost) is None
                } else {
                    claims_b(lost) && narrows_b(lost) is None
                }
            }
        }),
    decreases items.len(),
{
    if items.len() == 0 {
        assert(items.skip(0) == items);
    } else {
        let rest = items.drop_first();
        lemma_drain_ends_where_it_says(claims_a, narrows_a, claims_b, narrows_b, rest);
        let later = drained(claims_a, narrows_a, claims_b, narrows_b, rest);
        let consumed = rest.len() - later.2.len();
        assert(rest.skip(consumed) == items.skip(consumed + 1));
        assert(rest == items.skip(1));
        assert(items.skip(0) == items);
        if consumed < rest.len() {
            assert(rest[consumed] == items[consumed + 1]);
        }
        if consumed > 0 {
            assert(rest[consumed - 1] == items[consumed]);
        }
    }
}

/// A run never gets past an item that none of the polled branches claims,
/// wherever it stands in the source. Where each item before it is claimed by
/// exactly one branch, whose extractor narrows it, the run consumes at most
/// those items, in whatever order the branches are polled: the cursor holds
/// the rest of the source from an item at or before the blocked one, and
/// each branch has given exactly its own items of the consumed prefix, each
/// once and in the order of the source.
pub proof fn lemma_run_stops_at_blocked_item<Item, A, B>(
    claims_a: spec_fn(Item) -> bool,
    narrows_a: spec_fn(Item) -> Option<A>,
    claims_b: spec_fn(Item) -> bool,
    narrows_b: spec_fn(Item) -> Option<B>,
    items: Seq<Item>,
    at: int,
    schedule: Seq<bool>,
)
    requires
        0 <= at < items.len(),
        forall|i: int| 0 <= i < at ==> claims_a(#[trigger] items[i]) == !claims_b(items[i]),
        forall|i: int| 0 <= i < at && claims_a(#[trigger] items[i]) ==> narrows_a(items[i]) is Some,
        forall|i: int| 0 <= i < at && claims_b(#[trigger] items[i]) ==> narrows_b(items[i]) is Some,
        forall|j: int| 0 <= j < schedule.len() && #[trigger] schedule[j] ==> !claims_a(items[at]),
        forall|j: int| 0 <= j < schedule.len() && !#[trigger] schedule[j] ==> !claims_b(items[at]),
    ensures
        ({
            let run = run_group(claims_a, narrows_a, claims_b, narrows_b, items, schedule);
            let consumed = items.len() - run.2.len();
            &&& 0 <= consumed <= at
            &&& run.2 == items.skip(consumed)
            &&& run.0 == given(claims_a, narrows_a, items.take(consumed))
            &&& run.1 == given(claims_b, narrows_b, items.take(consumed))
        }),
    decreases schedule.len(),
{
    if schedule.len() == 0 {
        assert(items.skip(0) == items);
        assert(items.take(0).len() == 0);
    } else {
        let earlier = schedule.drop_last();
        assert forall|j: int| 0 <= j < earlier.len() && #[trigger] earlier[j] implies !claims_a(
            items[at],
        ) by {
            assert(earlier[j] == schedule[j]);
        }
        assert forall|j: int| 0 <= j < earlier.len() && !#[trigger] earlier[j] implies !claims_b(
            items[at],
        ) by {
            assert(earlier[j] == schedule[j]);
        }
        lemma_run_stops_at_blocked_item(claims_a, narrows_a, claims_b, narrows_b, items, at, earlier);
        let so_far = run_group(claims_a, narrows_a, claims_b, narrows_b, items, earlier);
        let consumed = items.len() - so_far.2.len();
        let head = so_far.2[0];
        assert(schedule.last() == schedule[schedule.len() - 1]);
        assert(head == items[consumed]);
        assert(items.take(consumed + 1).drop_last() == items.take(consumed));
        assert(items.take(consumed + 1).last() == head);
        assert(so_far.2.drop_first() == items.skip(consumed + 1));
    }
}

/// The items before one that no branch claims are each given once, by their
/// own branch, in any order of polls; the run never gets past the unclaimed
/// item and never reports the end.
pub proof fn lemma_run_never_passes_unclaimed_item<Item, A, B>(
    claims_a: spec_fn(Item) -> bool,
    narrows_a: spec_fn(Item) -> Option<A>,
    claims_b: spec_fn(Item) -> bool,
    narrows_b: spec_fn(Item) -> Option<B>,
    items: Seq<Item>,
    at: int,
    schedule: Seq<bool>,
)
    requires
        0 <= at < items.len(),
        forall|i: int| 0 <= i < at ==> claims_a(#[trigger] items[i]) == !claims_b(items[i]),
        forall|i: int| 0 <= i < at && claims_a(#[trigger] items[i]) ==> narrows_a(items[i]) is Some,
        forall|i: int| 0 <= i < at && claims_b(#[trigger] items[i]) ==> narrows_b(items[i]) is Some,
        !claims_a(items[at]),
        !claims_b(items[at]),
    ensures
        ({
            let run = run_group(claims_a, narrows_a, claims_b, narrows_b, items, schedule);
            let consumed = items.len() - run.2.len();
            &&& 0 <= consumed <= at
            &&& run.2.len() > 0
            &&& run.2 == items.skip(consumed)
            &&& run.0 == given(claims_a, narrows_a, items.take(consumed))
            &&& run.1 == given(claims_b, narrows_b, items.take(consumed))
        }),
{
    lemma_run_stops_at_blocked_item(claims_a, narrows_a, claims_b, narrows_b, items, at, schedule);
}

/// Where only the success branch of a fallible sequence is polled and the
/// first error stands behind `at` successes, the branch gives at most those
/// successes, in their order, however often it is polled: the error stays
/// on the cursor, nothing behind it is reached, and the end is never
/// reported.
pub proof fn lemma_lone_success_branch_stops_at_first_error<T, E>(
    items: Seq<Result<T, E>>,
    at: int,
    schedule: Seq<bool>,
)
    requires
        0 <= at < items.len(),
        forall|i: int| 0 <= i < at ==> #[trigger] items[i] is Ok,
        items[at] is Err,
        forall|j: int| 0 <= j < schedule.len() ==> #[trigger] schedule[j],
    ensures
        ({
            let run = run_group(
                claims_success(),
                narrows_success(),
                claims_error(),
                narrows_error(),
                items,
                schedule,
            );
            let consumed = items.len() - run.2.len();
            &&& 0 <= consumed <= at
            &&& run.2.len() > 0
            &&& run.2 == items.skip(consumed)
            &&& run.0 == successes(items.take(consumed))
            &&& run.1 == Seq::<E>::empty()
        }),
{
    lemma_run_stops_at_blocked_item(
        claims_success::<T, E>(),
        narrows_success::<T, E>(),
        claims_error::<T, E>(),
        narrows_error::<T, E>(),
        items,
        at,
        schedule,
    );
    let run = run_group(
        claims_success::<T, E>(),
        narrows_success::<T, E>(),
        claims_error::<T, E>(),
        narrows_error::<T, E>(),
        items,
        schedule,
    );
    let consumed = items.len() - run.2.len();
    lemma_successes_alone(items.take(consumed));
}

/// A sequence of successes alone gives the success branch all its values
/// and the error branch nothing.
pub proof fn lemma_successes_alone<T, E>(items: Seq<Result<T, E>>)
    requires
        forall|i: int| 0 <= i < items.len() ==> #[trigger] items[i] is Ok,
    ensures
        given(claims_success::<T, E>(), narrows_success::<T, E>(), items) == successes(items),
        given(claims_error::<T, E>(), narrows_error::<T, E>(), items) == Seq::<E>::empty(),
    decreases items.len(),
{
    if items.len() > 0 {
        let front = items.drop_last();
        lemma_successes_alone(front);
        assert(items == front.push(items.last()));
        crate::via::lemma_successes_of_one_more(front, items.last());
        assert(successes(front) + seq![items.last()->Ok_0] == successes(front).push(items.last()->Ok_0));
    }
}

} // verus!
