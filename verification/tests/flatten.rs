use stream_split::event::{try_flatten_applied, try_flatten_touched, Event};

fn one(event: Event<u32>) -> Vec<Result<Event<u32>, char>> {
    vec![Ok(event)]
}

fn mixed() -> Vec<Result<Event<u32>, char>> {
    vec![
        Ok(Event::Applied(1)),
        Err('A'),
        Ok(Event::Deleted(2)),
        Ok(Event::Restarted(vec![3, 4])),
        Ok(Event::Restarted(Vec::new())),
        Err('B'),
        Ok(Event::Applied(5)),
    ]
}

#[test]
fn applied_event_gives_its_key() {
    assert_eq!(try_flatten_applied(one(Event::Applied(7))), vec![Ok(7)]);
    assert_eq!(try_flatten_touched(one(Event::Applied(7))), vec![Ok(7)]);
    assert_eq!(Event::Applied(7u32).into_iter_applied(), vec![7]);
    assert_eq!(Event::Applied(7u32).into_iter_touched(), vec![7]);
}

#[test]
fn deleted_event_is_touched_but_not_applied() {
    assert_eq!(try_flatten_touched(one(Event::Deleted(7))), vec![Ok(7)]);
    assert_eq!(try_flatten_applied(one(Event::Deleted(7))), Vec::<Result<u32, char>>::new());
    assert_eq!(Event::Deleted(7u32).into_iter_applied(), Vec::<u32>::new());
    assert_eq!(Event::Deleted(7u32).into_iter_touched(), vec![7]);
}

#[test]
fn restarted_event_gives_all_its_keys_in_order() {
    assert_eq!(try_flatten_applied(one(Event::Restarted(vec![1, 2, 3]))), vec![Ok(1), Ok(2), Ok(3)]);
    assert_eq!(try_flatten_touched(one(Event::Restarted(vec![1, 2, 3]))), vec![Ok(1), Ok(2), Ok(3)]);
    assert_eq!(Event::Restarted(vec![1u32, 2, 3]).into_iter_applied(), vec![1, 2, 3]);
    assert_eq!(Event::Restarted(vec![1u32, 2, 3]).into_iter_touched(), vec![1, 2, 3]);
}

#[test]
fn flatten_keeps_event_order_and_passes_errors_in_place() {
    assert_eq!(
        try_flatten_applied(mixed()),
        vec![Ok(1), Err('A'), Ok(3), Ok(4), Err('B'), Ok(5)]
    );
    assert_eq!(
        try_flatten_touched(mixed()),
        vec![Ok(1), Err('A'), Ok(2), Ok(3), Ok(4), Err('B'), Ok(5)]
    );
}

#[test]
fn flatten_of_nothing_is_nothing() {
    assert_eq!(try_flatten_applied(Vec::<Result<Event<u32>, char>>::new()), Vec::<Result<u32, char>>::new());
    assert_eq!(try_flatten_touched(Vec::<Result<Event<u32>, char>>::new()), Vec::<Result<u32, char>>::new());
}
