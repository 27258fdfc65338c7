use term_stream::broadcast::Broadcaster;
use term_stream::broadcast::Recv;

fn drain(b: &mut Broadcaster, id: usize, into: &mut Vec<u8>) {
    loop {
        match b.recv(id) {
            Recv::Chunk(c) => into.extend_from_slice(&c),
            Recv::Empty | Recv::Closed => break,
        }
    }
}

#[test]
fn session_join() {
    let mut b = Broadcaster::new(1024, 8);
    b.publish(b"abc");
    b.publish(b"def");
    let (id, snapshot) = b.subscribe();
    b.publish(b"ghi");
    let mut seen = snapshot;
    drain(&mut b, id, &mut seen);
    assert_eq!(seen, b"abcdefghi".to_vec());
}

#[test]
fn subscribers_joining_at_any_time_see_a_suffix() {
    let chunks: Vec<Vec<u8>> = (0..20u8).map(|i| vec![b'a' + i; (i as usize % 4) + 1]).collect();
    let total: Vec<u8> = chunks.iter().flatten().copied().collect();
    for join_at in 0..=chunks.len() {
        let mut b = Broadcaster::new(16, 64);
        let mut joined = None;
        for (i, c) in chunks.iter().enumerate() {
            if i == join_at {
                joined = Some(b.subscribe());
            }
            b.publish(c);
        }
        let (id, snapshot) = match joined {
            Some(j) => j,
            None => b.subscribe(),
        };
        let mut seen = snapshot;
        drain(&mut b, id, &mut seen);
        assert!(!b.is_lagged(id));
        let before: usize = chunks[..join_at].iter().map(|c| c.len()).sum();
        assert_eq!(seen, total[before - before.min(16)..].to_vec());
    }
}

#[test]
fn chunks_arrive_in_order_one_by_one() {
    let mut b = Broadcaster::new(64, 4);
    let (id, snapshot) = b.subscribe();
    assert_eq!(snapshot, Vec::<u8>::new());
    assert_eq!(b.recv(id), Recv::Empty);
    b.publish(b"one");
    b.publish(b"two");
    assert_eq!(b.recv(id), Recv::Chunk(b"one".to_vec()));
    b.publish(b"three");
    assert_eq!(b.recv(id), Recv::Chunk(b"two".to_vec()));
    assert_eq!(b.recv(id), Recv::Chunk(b"three".to_vec()));
    assert_eq!(b.recv(id), Recv::Empty);
    assert_eq!(b.subscriber_count(), 1);
}

#[test]
fn history_is_capped() {
    let mut b = Broadcaster::new(4, 8);
    b.publish(b"abcdef");
    let (_, snapshot) = b.subscribe();
    assert_eq!(snapshot, b"cdef".to_vec());
    b.publish(b"g");
    let (_, snapshot) = b.subscribe();
    assert_eq!(snapshot, b"defg".to_vec());
}

#[test]
fn history_is_cut_between_code_points() {
    let mut b = Broadcaster::new(4, 8);
    b.publish("a漢字".as_bytes());
    let (_, snapshot) = b.subscribe();
    assert_eq!(snapshot, "字".as_bytes().to_vec());
    let mut b = Broadcaster::new(2, 8);
    b.publish("字".as_bytes());
    let (_, snapshot) = b.subscribe();
    assert_eq!(snapshot, Vec::<u8>::new());
    let mut b = Broadcaster::new(0, 8);
    b.publish(b"abc");
    let (_, snapshot) = b.subscribe();
    assert_eq!(snapshot, Vec::<u8>::new());
}

#[test]
fn slow_subscriber_lags_once_then_is_closed() {
    let mut b = Broadcaster::new(100, 2);
    let (slow, _) = b.subscribe();
    let (fast, _) = b.subscribe();
    b.publish(b"1");
    assert_eq!(b.recv(fast), Recv::Chunk(b"1".to_vec()));
    b.publish(b"2");
    assert_eq!(b.recv(fast), Recv::Chunk(b"2".to_vec()));
    assert!(!b.is_lagged(slow));
    b.publish(b"3");
    assert_eq!(b.recv(fast), Recv::Chunk(b"3".to_vec()));
    assert!(b.is_lagged(slow));
    assert!(!b.is_lagged(fast));
    assert_eq!(b.recv(slow), Recv::Chunk(b"2".to_vec()));
    assert_eq!(b.recv(slow), Recv::Chunk(b"3".to_vec()));
    assert_eq!(b.recv(slow), Recv::Empty);
    b.publish(b"4");
    assert_eq!(b.recv(fast), Recv::Chunk(b"4".to_vec()));
    b.publish(b"5");
    b.publish(b"6");
    assert_eq!(b.recv(slow), Recv::Closed);
    assert_eq!(b.recv(fast), Recv::Chunk(b"5".to_vec()));
    assert_eq!(b.recv(fast), Recv::Chunk(b"6".to_vec()));
    assert!(!b.is_lagged(fast));
}

#[test]
fn queue_without_room_drops_then_closes() {
    let mut b = Broadcaster::new(10, 0);
    let (id, _) = b.subscribe();
    b.publish(b"x");
    assert!(b.is_lagged(id));
    assert_eq!(b.recv(id), Recv::Empty);
    b.publish(b"y");
    assert_eq!(b.recv(id), Recv::Closed);
}

#[test]
fn closing_ends_every_subscriber() {
    let mut b = Broadcaster::new(10, 4);
    let (a, _) = b.subscribe();
    let (c, _) = b.subscribe();
    b.publish(b"x");
    assert!(!b.is_closed());
    b.close();
    assert!(b.is_closed());
    assert_eq!(b.recv(a), Recv::Closed);
    assert_eq!(b.recv(c), Recv::Closed);
    b.publish(b"y");
    let (late, snapshot) = b.subscribe();
    assert_eq!(snapshot, b"x".to_vec());
    assert_eq!(b.recv(late), Recv::Closed);
}

#[test]
fn empty_read_ends_the_terminal() {
    let mut b = Broadcaster::new(10, 4);
    let (id, _) = b.subscribe();
    b.on_read(b"abc");
    assert_eq!(b.recv(id), Recv::Chunk(b"abc".to_vec()));
    assert!(!b.is_closed());
    b.on_read(b"");
    assert!(b.is_closed());
    assert_eq!(b.recv(id), Recv::Closed);
}

#[test]
fn unsubscribing_closes_only_that_subscriber() {
    let mut b = Broadcaster::new(10, 4);
    let (a, _) = b.subscribe();
    let (c, _) = b.subscribe();
    b.publish(b"x");
    b.unsubscribe(a);
    b.unsubscribe(99);
    assert_eq!(b.recv(a), Recv::Closed);
    assert_eq!(b.recv(c), Recv::Chunk(b"x".to_vec()));
    assert_eq!(b.recv(99), Recv::Closed);
    assert!(!b.is_lagged(99));
}
