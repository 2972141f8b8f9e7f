//! Driving the two branches of a fallible sequence, and the pipeline that
//! transforms the successes and passes the errors through untouched.

use crate::group::{drain_group, GroupEnd};
use crate::laws::lemma_results_drain_to_the_end;
use crate::split::{errors, successes, trystream_split_result};
use std::collections::VecDeque;
use vstd::prelude::*;

verus! {

/// The errors `failures` as items of a fallible sequence.
pub open spec fn passed_through<U, E>(failures: Seq<E>) -> Seq<Result<U, E>> {
    failures.map_values(|error: E| Err::<U, E>(error))
}

/// The errors of `items` that reach the head of the cursor while only the
/// first `consumed` successes are taken off it: those that stand before the
/// first success that is left. Where no success is left, these are all the
/// errors.
pub open spec fn errors_ahead<T, E>(items: Seq<Result<T, E>>, consumed: nat) -> Seq<E>
    decreases items.len(),
{
    if items.len() == 0 {
        Seq::empty()
    } else {
        match items[0] {
            Err(error) => seq![error] + errors_ahead(items.drop_first(), consumed),
            Ok(_) => if consumed == 0 {
                Seq::empty()
            } else {
                errors_ahead(items.drop_first(), (consumed - 1) as nat)
            },
        }
    }
}

/// `items` with the value of each success left out.
pub open spec fn outline<T, E>(items: Seq<Result<T, E>>) -> Seq<Result<(), E>> {
    items.map_values(
        |item: Result<T, E>|
            match item {
                Ok(_) => Ok::<(), E>(()),
                Err(error) => Err::<(), E>(error),
            },
    )
}

/// `merged` holds the items of `first` and of `second`, each sequence in its
/// own order, and nothing else.
pub open spec fn interleaves<R>(first: Seq<R>, second: Seq<R>, merged: Seq<R>) -> bool
    decreases merged.len(),
{
    if merged.len() == 0 {
        first.len() == 0 && second.len() == 0
    } else {
        ||| first.len() > 0 && first[0] == merged[0] && interleaves(
            first.drop_first(),
            second,
            merged.drop_first(),
        )
        ||| second.len() > 0 && second[0] == merged[0] && interleaves(
            first,
            second.drop_first(),
            merged.drop_first(),
        )
    }
}

/// `merged` is a merge of what the transformation gave, `via`, with the
/// errors `passed` that reached the head of the cursor. Which of the two
/// comes first at any point is left open: it depends on which was ready
/// first. What the transformation gave keeps its order, and so do the errors
/// of the source, which are untouched; so the successes are exactly the
/// transformation's, and the errors are a merge of the transformation's
/// errors with the passed ones. The merge reports
/// the end where the transformation took every success (`drained`); where it
/// left one, that success stays at the head and the merge stalls behind what
/// it gave.
pub open spec fn merges<U, E>(
    passed: Seq<E>,
    drained: bool,
    via: Seq<Result<U, E>>,
    merged: (Seq<Result<U, E>>, GroupEnd),
) -> bool {
    &&& interleaves(via, passed_through::<U, E>(passed), merged.0)
    &&& successes(merged.0) == successes(via)
    &&& interleaves(errors(via), passed, errors(merged.0))
    &&& merged.1 == if drained {
        GroupEnd::Exhausted
    } else {
        GroupEnd::Stalled
    }
}

/// The success branch of a fallible sequence, as it is handed to a
/// transformation: the transformation takes from it as many successes as it
/// wants, and hands it back.
pub struct SuccessBranch<T> {
    ahead: VecDeque<T>,
    taken: usize,
}

impl<T> SuccessBranch<T> {
    /// The successes that have not been taken, the next one first.
    pub closed spec fn ahead(&self) -> Seq<T> {
        self.ahead@
    }

    /// How many successes have been taken.
    pub closed spec fn taken(&self) -> nat {
        self.taken as nat
    }

    /// The count of what was taken and what is ahead fits the machine.
    pub closed spec fn wf(&self) -> bool {
        self.taken + self.ahead@.len() <= usize::MAX
    }

    /// Takes the next success, if one is left.
    pub fn next(&mut self) -> (item: Option<T>)
        requires
            old(self).wf(),
        ensures
            final(self).wf(),
            match item {
                Some(value) => old(self).ahead().len() > 0 && value == old(self).ahead()[0]
                    && final(self).ahead() == old(self).ahead().drop_first() && final(self).taken()
                    == old(self).taken() + 1,
                None => old(self).ahead().len() == 0 && final(self).ahead() == old(self).ahead()
                    && final(self).taken() == old(self).taken(),
            },
    {
        let item = self.ahead.pop_front();
        if item.is_some() {
            self.taken = self.taken + 1;
        }
        item
    }

    /// How many successes have been taken.
    pub fn consumed(&self) -> (count: usize)
        ensures
            count == self.taken(),
    {
        self.taken
    }
}

/// Splits a fallible sequence and drains both branches, the success branch
/// first in each round, until both report the end. Each branch gives its
/// own items in the order of the source, and no item is lost or repeated.
pub fn collect_split<T, E>(stream: Vec<Result<T, E>>) -> (parts: (Vec<T>, Vec<E>))
    ensures
        parts.0@ == successes(stream@),
        parts.1@ == errors(stream@),
{
    let ghost all = stream@;
    let (mut cursor, oks, errs) = trystream_split_result(stream);
    let (values, failures, _) = drain_group(&oks, &errs, &mut cursor);
    proof {
        lemma_results_drain_to_the_end(all);
    }
    (values, failures)
}

/// Merges what a transformation gave, `via`, with the errors of `source`,
/// for a transformation that took the first `consumed` successes of
/// `source` and no more. Only the errors that stand before the first
/// success it left are passed through: that success is claimed by nobody
/// any more, so the error branch never gets past it and the merge stalls.
pub fn merge_via<T, E, U>(source: Vec<Result<T, E>>, consumed: usize, via: Vec<Result<U, E>>) -> (out: (
    Vec<Result<U, E>>,
    GroupEnd,
))
    ensures
        merges(
            errors_ahead(source@, consumed as nat),
            consumed >= successes(source@).len(),
            via@,
            (out.0@, out.1),
        ),
{
    let ghost all = source@;
    let ghost made = via@;
    let mut via = via;
    let mut merged: Vec<Result<U, E>> = Vec::new();
    let ghost mut passed: Seq<E> = Seq::empty();
    let mut left: usize = consumed;
    let mut blocked = false;
    proof {
        assert(all.skip(0) == all);
        assert(passed + errors_ahead(all, consumed as nat) == errors_ahead(all, consumed as nat));
    }
    for item in it: source
        invariant
            it.seq() == all,
            merged@ == passed_through::<U, E>(passed),
            !blocked ==> passed + errors_ahead(all.skip(it.index() as int), left as nat) == errors_ahead(
                all,
                consumed as nat,
            ),
            !blocked ==> (left >= successes(all.skip(it.index() as int)).len()) == (consumed
                >= successes(all).len()),
            blocked ==> passed == errors_ahead(all, consumed as nat) && consumed < successes(all).len(),
    {
        let ghost rest = all.skip(it.index() as int);
        let ghost had = passed;
        proof {
            assert(rest[0] == item);
            assert(rest.drop_first() == all.skip(it.index() + 1));
        }
        if !blocked {
            match item {
                Err(error) => {
                    merged.push(Err(error));
                    proof {
                        passed = had.push(error);
                        assert(passed_through::<U, E>(had).push(Err::<U, E>(error)) == passed_through::<
                            U,
                            E,
                        >(had.push(error)));
                        assert(had.push(error) + errors_ahead(rest.drop_first(), left as nat) == had + (
                        seq![error] + errors_ahead(rest.drop_first(), left as nat)));
                    }
                },
                Ok(_) => {
                    if left == 0 {
                        blocked = true;
                        assert(had + Seq::<E>::empty() == had);
                    } else {
                        left = left - 1;
                    }
                },
            }
        }
    }
    proof {
        assert(all.skip(all.len() as int) == Seq::<Result<T, E>>::empty());
        assert(passed + Seq::<E>::empty() == passed);
        lemma_appended_interleaves(made, passed_through::<U, E>(passed));
        lemma_appended_interleaves(errors(made), passed);
        lemma_merged_keeps_both_classes(passed, made);
    }
    merged.append(&mut via);
    let end = if blocked {
        GroupEnd::Stalled
    } else {
        GroupEnd::Exhausted
    };
    (merged, end)
}

/// Forwards the successes of `input_stream` through the sequence that
/// `make_via_stream` builds from them, and passes the errors through
/// unmodified. The transformation takes as many successes as it wants from
/// the success branch and hands the branch back with what it made of them.
/// The errors that stand behind a success it left are never passed on, and
/// the end is reported only where it took every success.
pub fn trystream_try_via<T, E, U, F>(input_stream: Vec<Result<T, E>>, make_via_stream: F) -> (merged: (
    Vec<Result<U, E>>,
    GroupEnd,
)) where F: FnOnce(SuccessBranch<T>) -> (Vec<Result<U, E>>, SuccessBranch<T>)
    requires
        forall|oks: SuccessBranch<T>|
            oks.wf() && oks.taken() == 0 && oks.ahead() == successes(input_stream@)
                ==> #[trigger] make_via_stream.requires((oks,)),
    ensures
        exists|oks: SuccessBranch<T>, made: (Vec<Result<U, E>>, SuccessBranch<T>)|
            {
                &&& oks.wf() && oks.taken() == 0 && oks.ahead() == successes(input_stream@)
                &&& #[trigger] make_via_stream.ensures((oks,), made)
                &&& merges(
                    errors_ahead(input_stream@, made.1.taken()),
                    made.1.taken() >= successes(input_stream@).len(),
                    made.0@,
                    (merged.0@, merged.1),
                )
            },
{
    let ghost all = input_stream@;
    let mut ahead: VecDeque<T> = VecDeque::new();
    let mut shape: Vec<Result<(), E>> = Vec::new();
    for item in it: input_stream
        invariant
            it.seq() == all,
            ahead@ == successes(all.take(it.index() as int)),
            shape@ == outline(all.take(it.index() as int)),
    {
        let ghost seen = all.take(it.index() as int);
        proof {
            assert(all.take(it.index() + 1) == seen.push(item));
            lemma_successes_of_one_more(seen, item);
        }
        match item {
            Ok(value) => {
                ahead.push_back(value);
                shape.push(Ok(()));
                assert(shape@ == outline(seen.push(item)));
                assert(successes(seen) + seq![value] == successes(seen).push(value));
            },
            Err(error) => {
                shape.push(Err(error));
                assert(shape@ == outline(seen.push(item)));
                assert(successes(seen) + Seq::<T>::empty() == successes(seen));
            },
        }
    }
    assert(all.take(all.len() as int) == all);
    assert(ahead.len() == ahead@.len());
    let oks = SuccessBranch { ahead, taken: 0 };
    let ghost handed = oks;
    let (via, left) = make_via_stream(oks);
    let ghost made = (via, left);
    let consumed = left.consumed();
    proof {
        lemma_outline_keeps_the_order(all, consumed as nat);
    }
    let merged = merge_via(shape, consumed, via);
    assert(make_via_stream.ensures((handed,), made));
    merged
}

/// The successes of a sequence with one more item at its end.
pub proof fn lemma_successes_of_one_more<T, E>(items: Seq<Result<T, E>>, item: Result<T, E>)
    ensures
        successes(items.push(item)) == successes(items) + (match item {
            Ok(value) => seq![value],
            Err(_) => Seq::<T>::empty(),
        }),
    decreases items.len(),
{
    let last = match item {
        Ok(value) => seq![value],
        Err(_) => Seq::<T>::empty(),
    };
    if items.len() == 0 {
        assert(items.push(item).drop_first() == Seq::<Result<T, E>>::empty());
        assert(successes(items.push(item).drop_first()) == Seq::<T>::empty());
        assert(last + Seq::<T>::empty() == last);
        assert(Seq::<T>::empty() + last == last);
    } else {
        lemma_successes_of_one_more(items.drop_first(), item);
        assert(items.push(item).drop_first() == items.drop_first().push(item));
        assert(items.push(item)[0] == items[0]);
        match items[0] {
            Ok(value) => {
                assert(seq![value] + (successes(items.drop_first()) + last) == (seq![value] + successes(
                    items.drop_first(),
                )) + last);
            },
            Err(_) => {},
        }
    }
}

/// Leaving out the values of the successes changes neither which errors
/// stand before a success nor how many successes there are.
pub proof fn lemma_outline_keeps_the_order<T, E>(items: Seq<Result<T, E>>, consumed: nat)
    ensures
        errors_ahead(outline(items), consumed) == errors_ahead(items, consumed),
        successes(outline(items)).len() == successes(items).len(),
    decreases items.len(),
{
    if items.len() > 0 {
        assert(outline(items).drop_first() == outline(items.drop_first()));
        lemma_outline_keeps_the_order(items.drop_first(), consumed);
        if consumed > 0 {
            lemma_outline_keeps_the_order(items.drop_first(), (consumed - 1) as nat);
        }
    }
}

/// One sequence followed by another is a merge of the two.
pub proof fn lemma_appended_interleaves<R>(first: Seq<R>, second: Seq<R>)
    ensures
        interleaves(first, second, second + first),
    decreases second.len() + first.len(),
{
    let merged = second + first;
    if second.len() > 0 {
        lemma_appended_interleaves(first, second.drop_first());
        assert(merged.drop_first() == second.drop_first() + first);
    } else if first.len() > 0 {
        lemma_appended_interleaves(first.drop_first(), second);
        assert(merged.drop_first() == second + first.drop_first());
    }
}

/// A merge with nothing is the other sequence itself: where the
/// transformation gives no error, the errors of the merged sequence are
/// exactly the passed ones, in their order.
pub proof fn lemma_merge_with_nothing<R>(second: Seq<R>, merged: Seq<R>)
    requires
        interleaves(Seq::<R>::empty(), second, merged),
    ensures
        merged == second,
    decreases merged.len(),
{
    if merged.len() > 0 {
        lemma_merge_with_nothing(second.drop_first(), merged.drop_first());
        assert(merged == seq![merged[0]] + merged.drop_first());
        assert(second == seq![second[0]] + second.drop_first());
    } else {
        assert(merged == second);
    }
}

/// Errors put before a fallible sequence add nothing to its successes, and
/// stand before its errors.
pub proof fn lemma_merged_keeps_both_classes<U, E>(failures: Seq<E>, via: Seq<Result<U, E>>)
    ensures
        errors(passed_through::<U, E>(failures) + via) == failures + errors(via),
        successes(passed_through::<U, E>(failures) + via) == successes(via),
    decreases failures.len(),
{
    let merged = passed_through::<U, E>(failures) + via;
    if failures.len() == 0 {
        assert(merged == via);
        assert(failures + errors(via) == errors(via));
    } else {
        let later = failures.drop_first();
        lemma_merged_keeps_both_classes(later, via);
        assert(merged[0] == Err::<U, E>(failures[0]));
        assert(merged.drop_first() == passed_through::<U, E>(later) + via);
        assert(seq![failures[0]] + (later + errors(via)) == failures + errors(via));
    }
}

} // verus!
