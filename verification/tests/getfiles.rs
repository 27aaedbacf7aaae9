use mononoke::getfiles::{getfiles_buffer, OrderedBuffer, GETFILES_BUFFER_SIZE};
use mononoke::hash::NodeHash;
use mononoke::queries::{heads, known};

fn hash(n: u8) -> NodeHash {
    NodeHash { bytes: [n; 20] }
}

#[test]
fn delayed_fetch_does_not_change_the_order() {
    let mut buffer = getfiles_buffer();
    let t1 = buffer.submit().unwrap();
    let t2 = buffer.submit().unwrap();
    let t3 = buffer.submit().unwrap();
    assert_eq!((t1, t2, t3), (0, 1, 2));
    let mut sent: Vec<Vec<u8>> = Vec::new();

    assert!(buffer.complete(t1, b"blob1".to_vec()));
    sent.extend(buffer.drain_ready());
    assert_eq!(sent, vec![b"blob1".to_vec()]);

    // The third fetch completes before the second: it has to wait.
    assert!(buffer.complete(t3, b"blob3".to_vec()));
    assert_eq!(buffer.pop_ready(), None);
    sent.extend(buffer.drain_ready());
    assert_eq!(sent, vec![b"blob1".to_vec()]);
    assert_eq!(buffer.in_flight(), 2);

    assert!(buffer.complete(t2, b"blob2".to_vec()));
    sent.extend(buffer.drain_ready());
    assert_eq!(sent, vec![b"blob1".to_vec(), b"blob2".to_vec(), b"blob3".to_vec()]);
    assert_eq!(buffer.in_flight(), 0);
}

#[test]
fn fetches_that_complete_in_reverse_are_sent_in_order() {
    let mut buffer: OrderedBuffer<u32> = OrderedBuffer::new(10);
    let tickets: Vec<u64> = (0..5).map(|_| buffer.submit().unwrap()).collect();
    for (i, ticket) in tickets.iter().enumerate().rev() {
        assert_eq!(buffer.pop_ready(), None);
        assert!(buffer.complete(*ticket, i as u32 * 10));
    }
    assert_eq!(buffer.drain_ready(), vec![0, 10, 20, 30, 40]);
}

#[test]
fn no_more_than_a_hundred_fetches_are_under_way() {
    assert_eq!(GETFILES_BUFFER_SIZE, 100);
    let mut buffer = getfiles_buffer();
    for i in 0..100u64 {
        assert_eq!(buffer.submit(), Some(i));
    }
    assert_eq!(buffer.in_flight(), 100);
    assert_eq!(buffer.submit(), None);
    assert_eq!(buffer.in_flight(), 100);
    // A completed fetch that is not sent yet still takes its place.
    assert!(buffer.complete(5, vec![5]));
    assert_eq!(buffer.submit(), None);
    // Sending the oldest makes room for one more.
    assert!(buffer.complete(0, vec![0]));
    assert_eq!(buffer.pop_ready(), Some(vec![0]));
    assert_eq!(buffer.submit(), Some(100));
    assert_eq!(buffer.submit(), None);
}

#[test]
fn a_ticket_is_completed_once() {
    let mut buffer: OrderedBuffer<&str> = OrderedBuffer::new(3);
    let t = buffer.submit().unwrap();
    assert!(!buffer.complete(t + 1, "not submitted"));
    assert!(buffer.complete(t, "first"));
    assert!(!buffer.complete(t, "second"));
    assert_eq!(buffer.pop_ready(), Some("first"));
    assert!(!buffer.complete(t, "sent already"));
    assert_eq!(buffer.pop_ready(), None);
    assert_eq!(buffer.drain_ready(), Vec::<&str>::new());
}

#[test]
fn a_buffer_without_room_takes_nothing() {
    let mut buffer: OrderedBuffer<u8> = OrderedBuffer::new(0);
    assert_eq!(buffer.submit(), None);
    assert_eq!(buffer.in_flight(), 0);
}

#[test]
fn heads_are_a_set() {
    assert_eq!(
        heads(&vec![hash(3), hash(1), hash(3), hash(2), hash(1)]),
        vec![hash(3), hash(1), hash(2)]
    );
    assert_eq!(heads(&vec![]), vec![]);
}

#[test]
fn known_answers_for_each_hash_in_order() {
    let changesets = vec![hash(1), hash(2), hash(3)];
    assert_eq!(
        known(&vec![hash(3), hash(9), hash(1), hash(9), hash(3)], &changesets),
        vec![true, false, true, false, true]
    );
    assert_eq!(known(&vec![], &changesets), Vec::<bool>::new());
    assert_eq!(known(&vec![hash(1)], &vec![]), vec![false]);
}
