use stream_split::cursor::{Fatal, SharedCursor};
use stream_split::group::{drain_group, GroupEnd};
use stream_split::split::{trystream_split_result, BranchPoll, SplitCase};

fn even(item: &u32) -> bool {
    *item % 2 == 0
}

fn odd(item: &u32) -> bool {
    *item % 2 == 1
}

fn below_ten(item: &u32) -> bool {
    *item < 10
}

fn same(item: u32) -> Option<u32> {
    Some(item)
}

fn tenfold(item: u32) -> Option<u32> {
    Some(item * 10)
}

fn only_below_ten(item: u32) -> Option<u32> {
    if item < 10 {
        Some(item)
    } else {
        None
    }
}

#[test]
fn drain_of_complementary_branches_reaches_the_end() {
    let mut cursor = SharedCursor::new(vec![3u32, 8, 8, 1, 4, 7]);
    let evens = SplitCase::new(even, tenfold);
    let odds = SplitCase::new(odd, same);
    let (first, second, end) = drain_group(&evens, &odds, &mut cursor);
    assert_eq!(first, vec![80, 80, 40]);
    assert_eq!(second, vec![3, 1, 7]);
    assert_eq!(end, GroupEnd::Exhausted);
    assert_eq!(evens.poll_next(&mut cursor), BranchPoll::Exhausted);
    assert_eq!(odds.poll_next(&mut cursor), BranchPoll::Exhausted);
}

#[test]
fn drain_of_an_empty_source() {
    let mut cursor: SharedCursor<u32> = SharedCursor::new(Vec::new());
    let evens = SplitCase::new(even, same);
    let odds = SplitCase::new(odd, same);
    let (first, second, end) = drain_group(&evens, &odds, &mut cursor);
    assert_eq!(first, Vec::<u32>::new());
    assert_eq!(second, Vec::<u32>::new());
    assert_eq!(end, GroupEnd::Exhausted);
}

#[test]
fn drain_detects_the_stall_at_an_unclaimed_item() {
    let mut cursor = SharedCursor::new(vec![2u32, 5, 11, 4, 6]);
    let evens = SplitCase::new(even, same);
    let small = SplitCase::new(below_ten, same);
    let (first, second, end) = drain_group(&evens, &small, &mut cursor);
    assert_eq!(first, vec![2]);
    assert_eq!(second, vec![5]);
    assert_eq!(end, GroupEnd::Stalled);
    let (first, second, end) = drain_group(&evens, &small, &mut cursor);
    assert_eq!(first, Vec::<u32>::new());
    assert_eq!(second, Vec::<u32>::new());
    assert_eq!(end, GroupEnd::Stalled);
    cursor.acquire().unwrap();
    assert_eq!(cursor.advance(), Some(11));
    assert_eq!(cursor.advance(), Some(4));
}

#[test]
fn drain_gives_an_item_that_both_claim_to_the_first_branch() {
    let mut cursor = SharedCursor::new(vec![4u32, 5, 6]);
    let evens = SplitCase::new(even, same);
    let small = SplitCase::new(below_ten, tenfold);
    let (first, second, end) = drain_group(&evens, &small, &mut cursor);
    assert_eq!(first, vec![4, 6]);
    assert_eq!(second, vec![50]);
    assert_eq!(end, GroupEnd::Exhausted);
}

#[test]
fn drain_ends_behind_the_item_that_could_not_be_narrowed() {
    let mut cursor = SharedCursor::new(vec![2u32, 3, 12, 5]);
    let evens = SplitCase::new(even, only_below_ten);
    let odds = SplitCase::new(odd, same);
    let (first, second, end) = drain_group(&evens, &odds, &mut cursor);
    assert_eq!(first, vec![2]);
    assert_eq!(second, vec![3]);
    assert_eq!(end, GroupEnd::Fatal(Fatal::ExtractorMismatch));
    cursor.acquire().unwrap();
    assert_eq!(cursor.advance(), Some(5));
}

#[test]
fn drain_of_a_held_cursor_is_fatal_and_consumes_nothing() {
    let mut cursor = SharedCursor::new(vec![2u32, 3]);
    let evens = SplitCase::new(even, same);
    let odds = SplitCase::new(odd, same);
    cursor.acquire().unwrap();
    let (first, second, end) = drain_group(&evens, &odds, &mut cursor);
    assert_eq!(first, Vec::<u32>::new());
    assert_eq!(second, Vec::<u32>::new());
    assert_eq!(end, GroupEnd::Fatal(Fatal::ReentrantAccess));
    assert_eq!(cursor.advance(), Some(2));
    assert_eq!(cursor.advance(), Some(3));
}

#[test]
fn drain_of_a_fallible_sequence_never_stalls() {
    let source: Vec<Result<u32, char>> = vec![Err('a'), Ok(1), Err('b'), Err('c'), Ok(2)];
    let (mut cursor, oks, errs) = trystream_split_result(source);
    let (values, failures, end) = drain_group(&oks, &errs, &mut cursor);
    assert_eq!(values, vec![1, 2]);
    assert_eq!(failures, vec!['a', 'b', 'c']);
    assert_eq!(end, GroupEnd::Exhausted);
}
