use price_history::{Fifo, FifoIterator};

fn collect<const LENGTH: usize>(mut items: FifoIterator<'_, i32, LENGTH>) -> Vec<i32> {
    let mut out = Vec::new();
    while let Some(item) = items.next() {
        out.push(*item);
    }
    out
}

#[test]
fn check() {
    let mut queue = Fifo::<_, 5>::new();
    assert_eq!(collect(queue.iter()), vec![0, 0, 0, 0, 0]);

    queue.push(100);
    assert_eq!(collect(queue.iter()), vec![0, 0, 0, 0, 100]);

    queue.push(200);
    assert_eq!(collect(queue.iter()), vec![0, 0, 0, 100, 200]);

    queue.push(300);
    assert_eq!(collect(queue.iter()), vec![0, 0, 100, 200, 300]);

    queue.push(400);
    assert_eq!(collect(queue.iter()), vec![0, 100, 200, 300, 400]);

    queue.push(500);
    assert_eq!(collect(queue.iter()), vec![100, 200, 300, 400, 500]);
}

#[test]
fn fresh_queue_yields_fill_value() {
    let queue = Fifo::<i32, 3>::filled(7);
    assert_eq!(collect(queue.iter()), vec![7, 7, 7]);
    let single = Fifo::<i32, 1>::new();
    assert_eq!(collect(single.iter()), vec![0]);
}

#[test]
fn overwrite_matches_bounded_deque() {
    let mut queue = Fifo::<i32, 4>::new();
    let mut model: std::collections::VecDeque<i32> = std::collections::VecDeque::from(vec![0; 4]);
    for value in 1..=11 {
        queue.push(value);
        model.pop_front();
        model.push_back(value);
        assert_eq!(collect(queue.iter()), model.iter().copied().collect::<Vec<_>>());
    }
    assert_eq!(collect(queue.iter()), vec![8, 9, 10, 11]);
}

#[test]
fn iterator_is_restartable_and_ends() {
    let mut queue = Fifo::<i32, 2>::new();
    queue.push(1);
    queue.push(2);
    queue.push(3);
    let mut first = queue.iter();
    assert_eq!(first.next(), Some(&2));
    assert_eq!(first.next(), Some(&3));
    assert_eq!(first.next(), None);
    assert_eq!(first.next(), None);
    assert_eq!(collect(queue.iter()), vec![2, 3]);
}

#[test]
fn parts_rebuild_the_same_order() {
    let mut queue = Fifo::<i32, 3>::new();
    queue.push(1);
    queue.push(2);
    queue.push(3);
    queue.push(4);
    let (slots, position) = queue.to_parts();
    assert_eq!(slots, [4, 2, 3]);
    assert_eq!(position, 1);
    let copy = Fifo::<i32, 3>::from_parts(slots, position).unwrap();
    assert_eq!(collect(copy.iter()), vec![2, 3, 4]);
    assert!(Fifo::<i32, 3>::from_parts(slots, 3).is_none());
}
