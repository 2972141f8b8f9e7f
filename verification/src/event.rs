//! Change notifications, and flattening a fallible sequence of them into a
//! fallible sequence of the keys they carry.

use vstd::prelude::*;

verus! {

/// One change notification of a watch.
#[derive(Debug, PartialEq, Eq)]
pub enum Event<K> {
    /// A key was added or modified.
    Applied(K),
    /// A key was removed.
    Deleted(K),
    /// The watch was restarted: these are all the keys that exist now.
    Restarted(Vec<K>),
}

impl<K> Event<K> {
    /// The keys that the event shows as current, in its order.
    pub open spec fn applied_keys(self) -> Seq<K> {
        match self {
            Event::Applied(key) => seq![key],
            Event::Deleted(_) => Seq::empty(),
            Event::Restarted(keys) => keys@,
        }
    }

    /// The keys that the event touches, removals included, in its order.
    pub open spec fn touched_keys(self) -> Seq<K> {
        match self {
            Event::Applied(key) => seq![key],
            Event::Deleted(key) => seq![key],
            Event::Restarted(keys) => keys@,
        }
    }

    /// The keys that the event shows as current.
    pub fn into_iter_applied(self) -> (keys: Vec<K>)
        ensures
            keys@ == self.applied_keys(),
    {
        match self {
            Event::Applied(key) => {
                let mut keys: Vec<K> = Vec::new();
                keys.push(key);
                assert(keys@ == seq![key]);
                keys
            },
            Event::Deleted(_) => Vec::new(),
            Event::Restarted(keys) => keys,
        }
    }

    /// The keys that the event touches, removals included.
    pub fn into_iter_touched(self) -> (keys: Vec<K>)
        ensures
            keys@ == self.touched_keys(),
    {
        match self {
            Event::Applied(key) | Event::Deleted(key) => {
                let mut keys: Vec<K> = Vec::new();
                keys.push(key);
                assert(keys@ == seq![key]);
                keys
            },
            Event::Restarted(keys) => keys,
        }
    }
}

/// `keys` as successes of a fallible sequence.
pub open spec fn as_successes<K, E>(keys: Seq<K>) -> Seq<Result<K, E>> {
    keys.map_values(|key: K| Ok::<K, E>(key))
}

/// What one item of a fallible sequence of events flattens to: the current
/// keys of an event, or the error itself.
pub open spec fn applied_of<K, E>(item: Result<Event<K>, E>) -> Seq<Result<K, E>> {
    match item {
        Ok(event) => as_successes(event.applied_keys()),
        Err(error) => seq![Err(error)],
    }
}

/// What one item of a fallible sequence of events flattens to: the touched
/// keys of an event, or the error itself.
pub open spec fn touched_of<K, E>(item: Result<Event<K>, E>) -> Seq<Result<K, E>> {
    match item {
        Ok(event) => as_successes(event.touched_keys()),
        Err(error) => seq![Err(error)],
    }
}

/// The current keys of all events of `items`, each error in its place.
pub open spec fn flat_applied<K, E>(items: Seq<Result<Event<K>, E>>) -> Seq<Result<K, E>>
    decreases items.len(),
{
    if items.len() == 0 {
        Seq::empty()
    } else {
        flat_applied(items.drop_last()) + applied_of(items.last())
    }
}

/// The touched keys of all events of `items`, each error in its place.
pub open spec fn flat_touched<K, E>(items: Seq<Result<Event<K>, E>>) -> Seq<Result<K, E>>
    decreases items.len(),
{
    if items.len() == 0 {
        Seq::empty()
    } else {
        flat_touched(items.drop_last()) + touched_of(items.last())
    }
}

/// Appends `keys` to `flat` as successes.
fn push_keys<K, E>(flat: &mut Vec<Result<K, E>>, keys: Vec<K>)
    ensures
        final(flat)@ == old(flat)@ + as_successes::<K, E>(keys@),
{
    let ghost start = flat@;
    let ghost all = keys@;
    for key in it: keys
        invariant
            it.seq() == all,
            flat@ == start + as_successes::<K, E>(all.take(it.index() as int)),
    {
        flat.push(Ok(key));
        assert(all.take(it.index() + 1) == all.take(it.index() as int).push(key));
        assert(as_successes::<K, E>(all.take(it.index() as int)).push(Ok::<K, E>(key))
            == as_successes::<K, E>(all.take(it.index() as int).push(key)));
        assert((start + as_successes::<K, E>(all.take(it.index() as int))).push(Ok::<K, E>(key))
            == start + as_successes::<K, E>(all.take(it.index() as int)).push(Ok::<K, E>(key)));
    }
    assert(all.take(all.len() as int) == all);
}

/// Flattens each event of `stream` to the keys it shows as current, keeping
/// the order of the events and of the keys within each. An error stays in
/// its place and does not end the sequence.
pub fn try_flatten_applied<K, E>(stream: Vec<Result<Event<K>, E>>) -> (flat: Vec<Result<K, E>>)
    ensures
        flat@ == flat_applied(stream@),
{
    let ghost all = stream@;
    let mut flat: Vec<Result<K, E>> = Vec::new();
    for item in it: stream
        invariant
            it.seq() == all,
            flat@ == flat_applied(all.take(it.index() as int)),
    {
        let ghost seen = flat@;
        proof {
            let next = all.take(it.index() + 1);
            assert(next.drop_last() == all.take(it.index() as int));
            assert(next.last() == item);
        }
        match item {
            Ok(event) => push_keys(&mut flat, event.into_iter_applied()),
            Err(error) => {
                flat.push(Err(error));
                assert(seen.push(Err::<K, E>(error)) == seen + seq![Err::<K, E>(error)]);
            },
        }
    }
    assert(all.take(all.len() as int) == all);
    flat
}

/// Flattens each event of `stream` to the keys it touches, removals
/// included, keeping the order of the events and of the keys within each.
/// An error stays in its place and does not end the sequence.
pub fn try_flatten_touched<K, E>(stream: Vec<Result<Event<K>, E>>) -> (flat: Vec<Result<K, E>>)
    ensures
        flat@ == flat_touched(stream@),
{
    let ghost all = stream@;
    let mut flat: Vec<Result<K, E>> = Vec::new();
    for item in it: stream
        invariant
            it.seq() == all,
            flat@ == flat_touched(all.take(it.index() as int)),
    {
        let ghost seen = flat@;
        proof {
            let next = all.take(it.index() + 1);
            assert(next.drop_last() == all.take(it.index() as int));
            assert(next.last() == item);
        }
        match item {
            Ok(event) => push_keys(&mut flat, event.into_iter_touched()),
            Err(error) => {
                flat.push(Err(error));
                assert(seen.push(Err::<K, E>(error)) == seen + seq![Err::<K, E>(error)]);
            },
        }
    }
    assert(all.take(all.len() as int) == all);
    flat
}

} // verus!
