//! The peekable cursor over a source, and the same cursor behind an
//! exclusive-access guard.

use std::collections::VecDeque;
use vstd::prelude::*;

verus! {

/// An unrecoverable violation of the contract between a branch group and its
/// caller. It is never an item of the sequence: a driver aborts on it.
#[derive(Clone, Copy, Debug, PartialEq, Eq, Structural)]
pub enum Fatal {
    /// The exclusive-access guard was taken while it was already held.
    ReentrantAccess,
    /// The predicate claimed an item that the extractor could not narrow.
    ExtractorMismatch,
    /// The cursor had shown an item and then did not hand it out.
    CursorOutOfStep,
}

impl Fatal {
    /// The message a driver aborts with.
    pub fn message(&self) -> (text: &'static str)
        ensures
            text@ == self.message_text(),
    {
        match self {
            Fatal::ReentrantAccess => "shared cursor is already borrowed",
            Fatal::ExtractorMismatch => "`try_extract_item_case` returned `None` despite `should_consume_item` returning `true`",
            Fatal::CursorOutOfStep => "the cursor did not hand out the item that it had shown",
        }
    }

    pub open spec fn message_text(&self) -> Seq<char> {
        match self {
            Fatal::ReentrantAccess => "shared cursor is already borrowed"@,
            Fatal::ExtractorMismatch => "`try_extract_item_case` returned `None` despite `should_consume_item` returning `true`"@,
            Fatal::CursorOutOfStep => "the cursor did not hand out the item that it had shown"@,
        }
    }
}

/// A cursor over a finite source that can show its next item without
/// consuming it. At most one item is held back from the source at a time.
pub struct PeekableCursor<T> {
    source: VecDeque<T>,
    peeked: Option<T>,
}

impl<T> PeekableCursor<T> {
    /// The items not yet consumed, the next one first.
    pub closed spec fn remaining(&self) -> Seq<T> {
        match self.peeked {
            Some(x) => seq![x] + self.source@,
            None => self.source@,
        }
    }

    /// Whether an item has been pulled from the source and not yet consumed.
    pub closed spec fn has_peeked(&self) -> bool {
        self.peeked is Some
    }

    /// A cursor at the start of `items`.
    pub fn new(items: Vec<T>) -> (cursor: Self)
        ensures
            cursor.remaining() == items@,
            !cursor.has_peeked(),
    {
        let ghost all = items@;
        let mut source: VecDeque<T> = VecDeque::new();
        for item in it: items
            invariant
                it.seq() == all,
                source@ == all.take(it.index() as int),
        {
            source.push_back(item);
            assert(all.take(it.index() + 1) == all.take(it.index() as int).push(all[it.index() as int]));
        }
        assert(all.take(all.len() as int) == all);
        PeekableCursor { source, peeked: None }
    }

    /// Shows the next item without consuming it. The source is advanced at
    /// most once for one position, however often this is called.
    pub fn peek(&mut self) -> (head: Option<&T>)
        ensures
            final(self).remaining() == old(self).remaining(),
            final(self).has_peeked() == (old(self).remaining().len() > 0),
            match head {
                Some(x) => old(self).remaining().len() > 0 && *x == old(self).remaining()[0],
                None => old(self).remaining().len() == 0,
            },
    {
        if self.peeked.is_none() {
            let ghost before = self.source@;
            self.peeked = self.source.pop_front();
            proof {
                if before.len() > 0 {
                    assert(seq![before[0]] + before.subrange(1, before.len() as int) == before);
                }
            }
        }
        self.peeked.as_ref()
    }

    /// Consumes the next item: the one that `peek` showed, if it showed one,
    /// else the next of the source.
    pub fn advance(&mut self) -> (item: Option<T>)
        ensures
            !final(self).has_peeked(),
            match item {
                Some(x) => old(self).remaining().len() > 0 && x == old(self).remaining()[0]
                    && final(self).remaining() == old(self).remaining().drop_first(),
                None => old(self).remaining().len() == 0 && final(self).remaining().len() == 0,
            },
    {
        let held = self.peeked.take();
        match held {
            Some(x) => {
                assert((seq![x] + self.source@).drop_first() == self.source@);
                Some(x)
            },
            None => self.source.pop_front(),
        }
    }
}

/// The peekable cursor of a branch group, behind a guard that admits one
/// accessor at a time.
pub struct SharedCursor<T> {
    cursor: PeekableCursor<T>,
    held: bool,
}

impl<T> SharedCursor<T> {
    /// The items that no branch has consumed yet, the next one first.
    pub closed spec fn remaining(&self) -> Seq<T> {
        self.cursor.remaining()
    }

    /// Whether the guard is held.
    pub closed spec fn is_held(&self) -> bool {
        self.held
    }

    /// Whether an item has been pulled from the source and not yet consumed.
    pub closed spec fn has_peeked(&self) -> bool {
        self.cursor.has_peeked()
    }

    /// A released cursor at the start of `items`.
    pub fn new(items: Vec<T>) -> (shared: Self)
        ensures
            shared.remaining() == items@,
            !shared.is_held(),
            !shared.has_peeked(),
    {
        SharedCursor { cursor: PeekableCursor::new(items), held: false }
    }

    /// Takes the guard. Taking it while it is held is fatal and changes
    /// nothing.
    pub fn acquire(&mut self) -> (taken: Result<(), Fatal>)
        ensures
            final(self).remaining() == old(self).remaining(),
            final(self).has_peeked() == old(self).has_peeked(),
            final(self).is_held(),
            taken == (if old(self).is_held() {
                Err::<(), Fatal>(Fatal::ReentrantAccess)
            } else {
                Ok::<(), Fatal>(())
            }),
    {
        if self.held {
            Err(Fatal::ReentrantAccess)
        } else {
            self.held = true;
            Ok(())
        }
    }

    /// Gives the guard back.
    pub fn release(&mut self)
        ensures
            final(self).remaining() == old(self).remaining(),
            final(self).has_peeked() == old(self).has_peeked(),
            !final(self).is_held(),
    {
        self.held = false;
    }

    /// `PeekableCursor::peek`, for the holder of the guard.
    pub fn peek(&mut self) -> (head: Option<&T>)
        requires
            old(self).is_held(),
        ensures
            final(self).is_held(),
            final(self).remaining() == old(self).remaining(),
            final(self).has_peeked() == (old(self).remaining().len() > 0),
            match head {
                Some(x) => old(self).remaining().len() > 0 && *x == old(self).remaining()[0],
                None => old(self).remaining().len() == 0,
            },
    {
        self.cursor.peek()
    }

    /// `PeekableCursor::advance`, for the holder of the guard.
    pub fn advance(&mut self) -> (item: Option<T>)
        requires
            old(self).is_held(),
        ensures
            final(self).is_held(),
            !final(self).has_peeked(),
            match item {
                Some(x) => old(self).remaining().len() > 0 && x == old(self).remaining()[0]
                    && final(self).remaining() == old(self).remaining().drop_first(),
                None => old(self).remaining().len() == 0 && final(self).remaining().len() == 0,
            },
    {
        self.cursor.advance()
    }
}

} // verus!
