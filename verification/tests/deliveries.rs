use clickhouse_spans::delivery::{after_put, before_puts, Step};

/// The places that are put when the put at `failing` fails, and the last step.
fn deliver(total: usize, failing: Option<usize>) -> (Vec<usize>, Step) {
    let mut puts = Vec::new();
    let mut step = before_puts(total);
    while let Step::Put(i) = step {
        puts.push(i);
        step = after_put(i, total, failing == Some(i));
    }
    (puts, step)
}

#[test]
fn all_spans_are_put_in_order() {
    assert_eq!(deliver(0, None), (vec![], Step::Done));
    assert_eq!(deliver(1, None), (vec![0], Step::Done));
    assert_eq!(deliver(3, None), (vec![0, 1, 2], Step::Done));
}

#[test]
fn the_first_failure_ends_the_puts() {
    assert_eq!(deliver(3, Some(0)), (vec![0], Step::Fail));
    assert_eq!(deliver(3, Some(1)), (vec![0, 1], Step::Fail));
    assert_eq!(deliver(3, Some(2)), (vec![0, 1, 2], Step::Fail));
}

#[test]
fn the_last_place_has_none_after_it() {
    assert_eq!(after_put(usize::MAX, usize::MAX, false), Step::Done);
    assert_eq!(after_put(usize::MAX - 2, usize::MAX, false), Step::Put(usize::MAX - 1));
    assert_eq!(after_put(5, 3, false), Step::Done);
    assert_eq!(after_put(5, 3, true), Step::Fail);
}
