use digimatic::ring_buffer::StaticRingBuffer;

#[test]
fn overwrite_oldest() {
    let mut buf = StaticRingBuffer::<i32, 3>::new();

    buf.push(1);
    buf.push(2);
    buf.push(3);
    buf.push(4);

    let items: Vec<&i32> = buf.iter_newest();

    assert_eq!(items, vec![&4, &3, &2]);
}

#[test]
fn n_is_one() {
    let mut buf = StaticRingBuffer::<i32, 1>::new();

    buf.push(1);
    buf.push(2);
    buf.push(3);

    let items: Vec<&i32> = buf.iter_newest();

    assert_eq!(items, vec![&3]);
}

#[test]
fn buffer_partially_filled_and_empty() {
    let mut buf = StaticRingBuffer::<i32, 5>::new();

    let items_0: Vec<&i32> = buf.iter_newest();
    assert!(items_0.is_empty(), "0件のときは空のイテレータであるべき");

    buf.push(100);
    let items_1: Vec<&i32> = buf.iter_newest();
    assert_eq!(
        items_1,
        vec![&100],
        "1件のときは [100] が返るべき（None を踏まないこと）"
    );

    buf.push(200);
    let items_2: Vec<&i32> = buf.iter_newest();
    assert_eq!(
        items_2,
        vec![&200, &100],
        "2件のときは最新順で取得でき、None を踏まないこと"
    );

    let items_old: Vec<&i32> = buf.iter_oldest();
    assert_eq!(
        items_old,
        vec![&100, &200],
        "古い順イテレータも正常に回ること"
    );
}

#[test]
fn oldest_order_after_multiple_wraps() {
    let mut buf = StaticRingBuffer::<i32, 3>::new();

    for i in 1..=10 {
        buf.push(i);
    }

    let items: Vec<_> = buf.iter_oldest().into_iter().copied().collect();
    assert_eq!(items, vec![8, 9, 10]);
}

#[test]
fn iter_is_alias_of_oldest() {
    let mut buf = StaticRingBuffer::<i32, 3>::new();

    for i in 1..=10 {
        buf.push(i);
    }

    assert_eq!(
        buf.iter().into_iter().copied().collect::<Vec<_>>(),
        buf.iter_oldest().into_iter().copied().collect::<Vec<_>>()
    );
}

#[test]
fn counters_follow_pushes() {
    let mut buf = StaticRingBuffer::<u8, 2>::new();
    assert!(buf.is_empty());
    assert!(!buf.is_full());
    assert_eq!(buf.len(), 0);
    buf.push(1);
    assert_eq!(buf.len(), 1);
    assert!(!buf.is_empty());
    buf.push(2);
    buf.push(3);
    assert_eq!(buf.len(), 2);
    assert!(buf.is_full());
    buf.clear();
    assert!(buf.is_empty());
    assert_eq!(buf.len(), 0);
    assert!(buf.iter().is_empty());
    buf.push(9);
    assert_eq!(buf.iter_oldest(), vec![&9]);
}

#[test]
fn newest_is_reverse_of_oldest() {
    let mut buf = StaticRingBuffer::<u32, 4>::new();
    for i in 0..7u32 {
        buf.push(i * i);
        let mut old: Vec<u32> = buf.iter_oldest().into_iter().copied().collect();
        old.reverse();
        let new: Vec<u32> = buf.iter_newest().into_iter().copied().collect();
        assert_eq!(old, new);
    }
    assert_eq!(buf.iter_oldest().into_iter().copied().collect::<Vec<_>>(), vec![9, 16, 25, 36]);
}

#[test]
fn default_is_empty() {
    let mut buf: StaticRingBuffer<u8, 3> = Default::default();
    assert!(buf.is_empty());
    buf.push(7);
    assert_eq!(buf.iter_newest(), vec![&7]);
}
