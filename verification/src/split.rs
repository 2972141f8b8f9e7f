//! One branch of a split: the rule by which it claims items and what it
//! decides on each poll; and the split of a fallible sequence into its
//! successes and its errors.

use crate::cursor::{Fatal, SharedCursor};
use vstd::prelude::*;

verus! {

/// What one poll of a source gave: nothing yet, the next item, or the end.
#[derive(Debug, PartialEq, Eq)]
pub enum Polled<T> {
    Pending,
    Ready(Option<T>),
}

/// What a branch does once the cursor has been peeked.
#[derive(Clone, Copy, Debug, PartialEq, Eq, Structural)]
pub enum Decision {
    /// Leave the cursor as it is and report that nothing is ready.
    Suspend,
    /// Report the end of the sequence.
    Finish,
    /// Take the head item off the cursor and hand it to the extractor.
    Consume,
}

/// The outcome of polling a branch once.
#[derive(Debug, PartialEq, Eq)]
pub enum BranchPoll<Case> {
    /// Nothing for this branch now; the cursor was left untouched.
    Pending,
    /// The head item was this branch's, and was consumed.
    Item(Case),
    /// The source has ended.
    Exhausted,
    /// The caller broke the contract of the group.
    Fatal(Fatal),
}

/// One branch of a split. It claims the items for which
/// `should_consume_item` holds and narrows each with
/// `try_extract_item_case`, which must give a value for every claimed item.
///
/// The branches over one cursor must together claim every item: an item that
/// no live branch claims stays at the head for ever.
#[verifier::reject_recursive_types(Item)]
#[verifier::reject_recursive_types(Case)]
pub struct SplitCase<Item, Case, P: Fn(&Item) -> bool, X: Fn(Item) -> Option<Case>> {
    /// Tests whether an item should be consumed by this branch.
    pub should_consume_item: P,
    /// Narrows a consumed item to this branch's output.
    pub try_extract_item_case: X,
    /// Ties the branch to the type of its items and of its output.
    pub marker: core::marker::PhantomData<(Item, Case)>,
}

impl<Item, Case, P: Fn(&Item) -> bool, X: Fn(Item) -> Option<Case>> SplitCase<Item, Case, P, X> {
    /// The predicate and the extractor accept every item.
    pub open spec fn wf(&self) -> bool {
        &&& forall|item: Item| #[trigger] self.should_consume_item.requires((&item,))
        &&& forall|item: Item| #[trigger] self.try_extract_item_case.requires((item,))
    }

    /// The predicate computes `claims` and the extractor computes `narrows`.
    pub open spec fn follows(
        &self,
        claims: spec_fn(Item) -> bool,
        narrows: spec_fn(Item) -> Option<Case>,
    ) -> bool {
        &&& forall|item: Item, taken: bool| #[trigger]
            self.should_consume_item.ensures((&item,), taken) ==> taken == claims(item)
        &&& forall|item: Item, case: Option<Case>| #[trigger]
            self.try_extract_item_case.ensures((item,), case) ==> case == narrows(item)
    }

    /// `decision` is what the branch does after a peek that gave `peeked`:
    /// suspend while the source is not ready or the predicate declines the
    /// head, finish at the end, consume a head that the predicate takes.
    pub open spec fn decides(&self, peeked: Polled<&Item>, decision: Decision) -> bool {
        match peeked {
            Polled::Pending => decision == Decision::Suspend,
            Polled::Ready(None) => decision == Decision::Finish,
            Polled::Ready(Some(item)) => {
                ||| decision == Decision::Consume && self.should_consume_item.ensures((item,), true)
                ||| decision == Decision::Suspend && self.should_consume_item.ensures((item,), false)
            },
        }
    }

    /// `result` is what becomes of `advanced`, which the cursor gave after a
    /// decision to consume.
    pub open spec fn extracts(&self, advanced: Polled<Item>, result: Result<Case, Fatal>) -> bool {
        match advanced {
            Polled::Ready(Some(item)) => match result {
                Ok(case) => self.try_extract_item_case.ensures((item,), Some(case)),
                Err(fatal) => fatal == Fatal::ExtractorMismatch
                    && self.try_extract_item_case.ensures((item,), None::<Case>),
            },
            _ => result == Err::<Case, Fatal>(Fatal::CursorOutOfStep),
        }
    }

    /// One poll of the branch over a released cursor that held `items`
    /// reported `polled` and left `rest`.
    pub open spec fn polls(&self, items: Seq<Item>, polled: BranchPoll<Case>, rest: Seq<Item>) -> bool {
        if items.len() == 0 {
            polled is Exhausted && rest == items
        } else {
            match polled {
                BranchPoll::Pending => rest == items
                    && self.should_consume_item.ensures((&items[0],), false),
                BranchPoll::Item(case) => rest == items.drop_first()
                    && self.should_consume_item.ensures((&items[0],), true)
                    && self.try_extract_item_case.ensures((items[0],), Some(case)),
                BranchPoll::Fatal(fatal) => rest == items.drop_first()
                    && fatal == Fatal::ExtractorMismatch
                    && self.should_consume_item.ensures((&items[0],), true)
                    && self.try_extract_item_case.ensures((items[0],), None::<Case>),
                BranchPoll::Exhausted => false,
            }
        }
    }

    /// A branch with the given predicate and extractor.
    pub fn new(should_consume_item: P, try_extract_item_case: X) -> (branch: Self)
        ensures
            branch.should_consume_item == should_consume_item,
            branch.try_extract_item_case == try_extract_item_case,
    {
        SplitCase { should_consume_item, try_extract_item_case, marker: core::marker::PhantomData }
    }

    /// Decides what to do with what a peek of the cursor gave.
    pub fn decide(&self, peeked: Polled<&Item>) -> (decision: Decision)
        requires
            self.wf(),
        ensures
            self.decides(peeked, decision),
    {
        match peeked {
            Polled::Pending => Decision::Suspend,
            Polled::Ready(None) => Decision::Finish,
            Polled::Ready(Some(item)) => {
                if (self.should_consume_item)(item) {
                    Decision::Consume
                } else {
                    Decision::Suspend
                }
            },
        }
    }

    /// Narrows the item that the cursor handed out after a decision to
    /// consume. An item that the extractor does not narrow is fatal: it has
    /// left the source and cannot be put back.
    pub fn extract(&self, advanced: Polled<Item>) -> (case: Result<Case, Fatal>)
        requires
            self.wf(),
        ensures
            self.extracts(advanced, case),
    {
        match advanced {
            Polled::Ready(Some(item)) => match (self.try_extract_item_case)(item) {
                Some(case) => Ok(case),
                None => Err(Fatal::ExtractorMismatch),
            },
            _ => Err(Fatal::CursorOutOfStep),
        }
    }

    /// Polls the branch once: takes the guard, peeks, decides, consumes a
    /// claimed head, and gives the guard back on every path. A cursor whose
    /// guard is held is left as it is and reported as fatal.
    pub fn poll_next(&self, cursor: &mut SharedCursor<Item>) -> (polled: BranchPoll<Case>)
        requires
            self.wf(),
        ensures
            old(cursor).is_held() ==> polled == BranchPoll::<Case>::Fatal(Fatal::ReentrantAccess)
                && final(cursor).is_held() && final(cursor).remaining() == old(cursor).remaining(),
            !old(cursor).is_held() ==> !final(cursor).is_held() && self.polls(
                old(cursor).remaining(),
                polled,
                final(cursor).remaining(),
            ),
    {
        match cursor.acquire() {
            Err(fatal) => { return BranchPoll::Fatal(fatal); },
            Ok(_) => {},
        }
        let decision = self.decide(Polled::Ready(cursor.peek()));
        let polled = match decision {
            Decision::Suspend => BranchPoll::Pending,
            Decision::Finish => BranchPoll::Exhausted,
            Decision::Consume => match self.extract(Polled::Ready(cursor.advance())) {
                Ok(case) => BranchPoll::Item(case),
                Err(fatal) => BranchPoll::Fatal(fatal),
            },
        };
        cursor.release();
        polled
    }
}

/// The values of the successes among `items`, in their order.
pub open spec fn successes<T, E>(items: Seq<Result<T, E>>) -> Seq<T>
    decreases items.len(),
{
    if items.len() == 0 {
        Seq::empty()
    } else {
        match items[0] {
            Ok(value) => seq![value] + successes(items.drop_first()),
            Err(_) => successes(items.drop_first()),
        }
    }
}

/// The values of the errors among `items`, in their order.
pub open spec fn errors<T, E>(items: Seq<Result<T, E>>) -> Seq<E>
    decreases items.len(),
{
    if items.len() == 0 {
        Seq::empty()
    } else {
        match items[0] {
            Ok(_) => errors(items.drop_first()),
            Err(error) => seq![error] + errors(items.drop_first()),
        }
    }
}

/// The success of an item, if it is one.
pub open spec fn success_of<T, E>(item: Result<T, E>) -> Option<T> {
    match item {
        Ok(value) => Some(value),
        Err(_) => None,
    }
}

/// The error of an item, if it is one.
pub open spec fn error_of<T, E>(item: Result<T, E>) -> Option<E> {
    match item {
        Ok(_) => None,
        Err(error) => Some(error),
    }
}

/// The predicate of the success branch.
pub open spec fn claims_success<T, E>() -> spec_fn(Result<T, E>) -> bool {
    |item: Result<T, E>| item is Ok
}

/// The extractor of the success branch.
pub open spec fn narrows_success<T, E>() -> spec_fn(Result<T, E>) -> Option<T> {
    |item: Result<T, E>| success_of(item)
}

/// The predicate of the error branch.
pub open spec fn claims_error<T, E>() -> spec_fn(Result<T, E>) -> bool {
    |item: Result<T, E>| item is Err
}

/// The extractor of the error branch.
pub open spec fn narrows_error<T, E>() -> spec_fn(Result<T, E>) -> Option<E> {
    |item: Result<T, E>| error_of(item)
}

/// The two branches of a fallible sequence, without a cursor: the first
/// claims the successes and narrows each to its value, the second claims the
/// errors and narrows each to its error. Every item is claimed by exactly
/// one of them, and what a branch claims its extractor narrows.
pub fn result_rules<T, E>() -> (rules: (
    SplitCase<Result<T, E>, T, impl Fn(&Result<T, E>) -> bool, impl Fn(Result<T, E>) -> Option<T>>,
    SplitCase<Result<T, E>, E, impl Fn(&Result<T, E>) -> bool, impl Fn(Result<T, E>) -> Option<E>>,
))
    ensures
        rules.0.wf(),
        rules.1.wf(),
        rules.0.follows(claims_success(), narrows_success()),
        rules.1.follows(claims_error(), narrows_error()),
{
    (SplitCase::new(Result::is_ok, Result::ok), SplitCase::new(Result::is_err, Result::err))
}

/// Splits a fallible sequence into a branch of its successes and a branch of
/// its errors, over one shared cursor. Every item is a success or an error,
/// so the two branches claim every item between them.
///
/// Both branches must be polled until both report the end: once an item of
/// a branch that is no longer polled reaches the head, the other stalls.
pub fn trystream_split_result<T, E>(stream: Vec<Result<T, E>>) -> (group: (
    SharedCursor<Result<T, E>>,
    SplitCase<Result<T, E>, T, impl Fn(&Result<T, E>) -> bool, impl Fn(Result<T, E>) -> Option<T>>,
    SplitCase<Result<T, E>, E, impl Fn(&Result<T, E>) -> bool, impl Fn(Result<T, E>) -> Option<E>>,
))
    ensures
        group.0.remaining() == stream@,
        !group.0.is_held(),
        group.1.wf(),
        group.2.wf(),
        group.1.follows(claims_success(), narrows_success()),
        group.2.follows(claims_error(), narrows_error()),
{
    let cursor = SharedCursor::new(stream);
    let (oks, errs) = result_rules();
    (cursor, oks, errs)
}

} // verus!
