use stream_split::group::GroupEnd;
use stream_split::via::{collect_split, merge_via, trystream_try_via, SuccessBranch};

fn values_of(items: &[Result<u32, char>]) -> Vec<u32> {
    items.iter().filter_map(|item| item.ok()).collect()
}

fn errors_of(items: &[Result<u32, char>]) -> Vec<char> {
    items.iter().filter_map(|item| item.err()).collect()
}

fn keep_all(mut oks: SuccessBranch<u32>) -> (Vec<Result<u32, char>>, SuccessBranch<u32>) {
    let mut made: Vec<Result<u32, char>> = Vec::new();
    while let Some(value) = oks.next() {
        made.push(Ok(value));
    }
    (made, oks)
}

fn keep_one(mut oks: SuccessBranch<u32>) -> (Vec<Result<u32, char>>, SuccessBranch<u32>) {
    let mut made: Vec<Result<u32, char>> = Vec::new();
    if let Some(value) = oks.next() {
        made.push(Ok(value * 10));
    }
    (made, oks)
}

fn keep_none(oks: SuccessBranch<u32>) -> (Vec<Result<u32, char>>, SuccessBranch<u32>) {
    (Vec::new(), oks)
}

#[test]
fn identity_transformation_keeps_both_classes_in_order() {
    let (values, failures) = collect_split(vec![Ok::<u32, char>(1), Err('A'), Ok(2)]);
    assert_eq!(values, vec![1, 2]);
    assert_eq!(failures, vec!['A']);
    let (merged, end) = trystream_try_via(vec![Ok::<u32, char>(1), Err('A'), Ok(2)], keep_all);
    assert_eq!(values_of(&merged), vec![1, 2]);
    assert_eq!(errors_of(&merged), vec!['A']);
    assert_eq!(merged.len(), 3);
    assert_eq!(end, GroupEnd::Exhausted);
}

#[test]
fn transformation_that_drops_the_success_branch_stalls_the_errors() {
    let (merged, end) = trystream_try_via(vec![Ok::<u32, char>(1), Err('A')], keep_none);
    assert_eq!(merged, Vec::<Result<u32, char>>::new());
    assert_eq!(end, GroupEnd::Stalled);
}

#[test]
fn errors_before_the_first_success_that_is_left_pass_through() {
    let source: Vec<Result<u32, char>> = vec![Err('x'), Ok(1), Err('y'), Ok(2), Err('z'), Ok(3)];
    let (merged, end) = trystream_try_via(source, keep_one);
    assert_eq!(values_of(&merged), vec![10]);
    assert_eq!(errors_of(&merged), vec!['x', 'y']);
    assert_eq!(merged.len(), 3);
    assert_eq!(end, GroupEnd::Stalled);
}

#[test]
fn errors_behind_the_last_success_pass_through_once_it_is_taken() {
    let (merged, end) = trystream_try_via(vec![Ok::<u32, char>(4), Err('a'), Err('b')], keep_one);
    assert_eq!(values_of(&merged), vec![40]);
    assert_eq!(errors_of(&merged), vec!['a', 'b']);
    assert_eq!(end, GroupEnd::Exhausted);
}

#[test]
fn source_of_errors_alone_ends_whatever_the_transformation_does() {
    let (merged, end) = trystream_try_via(vec![Err::<u32, char>('a'), Err('b')], keep_none);
    assert_eq!(merged, vec![Err('a'), Err('b')]);
    assert_eq!(end, GroupEnd::Exhausted);
}

#[test]
fn errors_of_the_transformation_are_merged_in() {
    let source: Vec<Result<u32, char>> = vec![Ok(1), Ok(2), Err('e'), Ok(3)];
    let (merged, end) = trystream_try_via(source, |mut oks: SuccessBranch<u32>| {
        let mut made: Vec<Result<u32, char>> = Vec::new();
        while let Some(value) = oks.next() {
            if value == 2 {
                made.push(Err('t'));
            } else if value == 3 {
                made.push(Ok(value * 100));
            }
        }
        (made, oks)
    });
    assert_eq!(values_of(&merged), vec![300]);
    let mut failures = errors_of(&merged);
    failures.sort();
    assert_eq!(failures, vec!['e', 't']);
    assert_eq!(merged.len(), 3);
    assert_eq!(end, GroupEnd::Exhausted);
}

#[test]
fn transformation_sees_exactly_the_successes() {
    let source: Vec<Result<u32, char>> = vec![Err('a'), Ok(4), Err('b'), Ok(2)];
    let (merged, end) = trystream_try_via(source, |mut oks: SuccessBranch<u32>| {
        assert_eq!(oks.consumed(), 0);
        assert_eq!(oks.next(), Some(4));
        assert_eq!(oks.consumed(), 1);
        assert_eq!(oks.next(), Some(2));
        assert_eq!(oks.next(), None);
        assert_eq!(oks.next(), None);
        assert_eq!(oks.consumed(), 2);
        (Vec::<Result<u32, char>>::new(), oks)
    });
    assert_eq!(merged, vec![Err('a'), Err('b')]);
    assert_eq!(end, GroupEnd::Exhausted);
}

#[test]
fn empty_source_gives_only_what_the_transformation_makes() {
    let (merged, end) = trystream_try_via(Vec::<Result<u32, char>>::new(), |oks: SuccessBranch<u32>| {
        (vec![Ok::<u32, char>(7)], oks)
    });
    assert_eq!(merged, vec![Ok(7)]);
    assert_eq!(end, GroupEnd::Exhausted);
}

#[test]
fn merge_passes_the_errors_ahead_of_the_first_success_left() {
    let source = || -> Vec<Result<u32, char>> { vec![Err('p'), Ok(1), Ok(2), Err('q'), Ok(3), Err('r')] };
    let (merged, end) = merge_via(source(), 0, vec![Ok::<u32, char>(9)]);
    assert_eq!(errors_of(&merged), vec!['p']);
    assert_eq!(values_of(&merged), vec![9]);
    assert_eq!(end, GroupEnd::Stalled);
    let (merged, end) = merge_via(source(), 1, Vec::<Result<u32, char>>::new());
    assert_eq!(merged, vec![Err('p')]);
    assert_eq!(end, GroupEnd::Stalled);
    let (merged, end) = merge_via(source(), 2, Vec::<Result<u32, char>>::new());
    assert_eq!(merged, vec![Err('p'), Err('q')]);
    assert_eq!(end, GroupEnd::Stalled);
    let (merged, end) = merge_via(source(), 3, vec![Err::<u32, char>('v')]);
    let passed: Vec<char> = errors_of(&merged).into_iter().filter(|error| *error != 'v').collect();
    assert_eq!(passed, vec!['p', 'q', 'r']);
    assert!(errors_of(&merged).contains(&'v'));
    assert_eq!(merged.len(), 4);
    assert_eq!(end, GroupEnd::Exhausted);
    let (merged, end) = merge_via(source(), 8, Vec::<Result<u32, char>>::new());
    assert_eq!(merged, vec![Err('p'), Err('q'), Err('r')]);
    assert_eq!(end, GroupEnd::Exhausted);
}
