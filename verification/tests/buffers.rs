use constellation::channel::circular_buffer;
use constellation::channel::circularbuffer::{
    CircularBuffer, CircularBufferReadToFd, CircularBufferWriteFromFd, Readable, Received,
    ReceiveStep, Receiving, SendStep, Sending, Sent, Writable, ECONNRESET, ETIMEDOUT,
};
use constellation::channel::serialize::{Deserializer, Serializer};

#[test]
fn items_leave_in_the_order_in_which_they_came() {
    let mut queue: CircularBuffer<u8> = CircularBuffer::new(4);
    assert_eq!(queue.len(), 4);
    assert_eq!(queue.read_available(), 0);
    assert_eq!(queue.write_available(), 4);
    queue.write(&[1, 2, 3]);
    let mut two = [0u8; 2];
    queue.read(&mut two);
    assert_eq!(two, [1, 2]);
    queue.write(&[4, 5, 6]);
    assert_eq!(queue.write_available(), 0);
    let mut peeked = [0u8; 2];
    queue.read_peek(1, &mut peeked);
    assert_eq!(peeked, [4, 5]);
    let mut four = [0u8; 4];
    queue.read(&mut four);
    assert_eq!(four, [3, 4, 5, 6]);
}

#[test]
fn what_was_read_can_be_put_back() {
    let mut queue: CircularBuffer<u8> = CircularBuffer::new(4);
    queue.write(&[1, 2, 3]);
    queue.read_consume(2);
    assert_eq!(queue.read_available(), 1);
    queue.read_unconsume_hack(2);
    let mut three = [0u8; 3];
    queue.read(&mut three);
    assert_eq!(three, [1, 2, 3]);
}

#[test]
fn items_are_piped() {
    let mut from: CircularBuffer<u8> = CircularBuffer::new(4);
    let mut to: CircularBuffer<u8> = CircularBuffer::new(4);
    from.write(&[1, 2, 3]);
    from.pipe(&mut to, 2);
    assert_eq!(from.read_available(), 1);
    let mut two = [0u8; 2];
    to.read(&mut two);
    assert_eq!(two, [1, 2]);
}

#[test]
fn written_ahead_is_not_there_until_it_is_consumed() {
    let mut queue: CircularBuffer<u8> = CircularBuffer::new(4);
    queue.write_peek(0, &[7, 8]);
    assert_eq!(queue.read_available(), 0);
    queue.write_consume(2);
    let mut two = [0u8; 2];
    queue.read(&mut two);
    assert_eq!(two, [7, 8]);
}

#[test]
fn sending_from_a_queue() {
    let mut queue: CircularBuffer<u8> = CircularBuffer::new(8);
    queue.write(&[1, 2, 3, 4]);
    let run = Sending { error: 0, written: 0 };
    assert_eq!(queue.read_runs(), (vec![1, 2, 3, 4], vec![]));
    let run = match queue.read_to_fd(run, Sent::Items(3)) {
        SendStep::More(run) => run,
        SendStep::Done(done) => panic!("{:?}", done),
    };
    assert_eq!(run, Sending { error: 0, written: 3 });
    assert_eq!(
        queue.read_to_fd(run, Sent::WouldBlock),
        SendStep::Done(CircularBufferReadToFd::Written(3))
    );
    assert_eq!(queue.read_available(), 1);
    let lost = Sending { error: ECONNRESET, written: 3 };
    assert_eq!(
        queue.read_to_fd(lost, Sent::WouldBlock),
        SendStep::Done(CircularBufferReadToFd::Killed)
    );
    assert_eq!(
        queue.read_to_fd(run, Sent::Failed),
        SendStep::Done(CircularBufferReadToFd::Killed)
    );
    queue.read_consume(1);
    assert_eq!(
        queue.read_to_fd(run, Sent::Drained(0)),
        SendStep::Done(CircularBufferReadToFd::Written(3))
    );
    assert_eq!(
        queue.read_to_fd(run, Sent::Drained(ETIMEDOUT)),
        SendStep::Done(CircularBufferReadToFd::Killed)
    );
    assert!(CircularBufferReadToFd::Killed.killed());
    assert_eq!(CircularBufferReadToFd::Written(3).written(), 3);
}

#[test]
fn receiving_into_a_queue() {
    let mut queue: CircularBuffer<u8> = CircularBuffer::new(4);
    let run = Receiving { error: 0, read: 0 };
    let run = match queue.write_from_fd(run, Received::Items(vec![9, 8, 7])) {
        ReceiveStep::More(run) => run,
        ReceiveStep::Done(done) => panic!("{:?}", done),
    };
    assert_eq!(run, Receiving { error: 0, read: 3 });
    assert_eq!(
        queue.write_from_fd(run, Received::Closed),
        ReceiveStep::Done(CircularBufferWriteFromFd::Read(3, true))
    );
    assert_eq!(
        queue.write_from_fd(run, Received::WouldBlock),
        ReceiveStep::Done(CircularBufferWriteFromFd::Read(3, false))
    );
    assert_eq!(
        queue.write_from_fd(run, Received::Failed),
        ReceiveStep::Done(CircularBufferWriteFromFd::Killed)
    );
    assert_eq!(CircularBufferWriteFromFd::Read(3, true).read(), (3, true));
    assert!(CircularBufferWriteFromFd::Killed.killed());
    let mut buf = vec![0u8; 8];
    assert_eq!(queue.read_some(&mut buf), 3);
    assert_eq!(&buf[..4], &[9, 8, 7, 0]);
    assert_eq!(queue.write_some(&vec![1, 2, 3, 4, 5]), Ok(4));
    assert_eq!(queue.write_some(&vec![6]), Err(()));
    assert_eq!(queue.write_some(&vec![]), Ok(0));
}

#[test]
fn a_queue_that_wraps() {
    let mut queue: circular_buffer::CircularBuffer<u8> = circular_buffer::CircularBuffer::new(2);
    assert_eq!(queue.capacity(), 2);
    assert_eq!(queue.write(1), None);
    assert_eq!(queue.write(2), None);
    assert_eq!(queue.write(3), Some(3));
    assert_eq!(queue.read_available(), 2);
    assert_eq!(queue.write_available(), 0);
    assert_eq!(queue.read(), Some(1));
    assert_eq!(queue.write(4), None);
    assert_eq!(queue.peek_all(), vec![2, 4]);
    assert_eq!(queue.read(), Some(2));
    assert_eq!(queue.read(), Some(4));
    assert_eq!(queue.read(), None);
}

#[test]
fn a_queue_that_wraps_is_sent_and_filled() {
    let mut queue: circular_buffer::CircularBuffer<u8> = circular_buffer::CircularBuffer::new(4);
    assert_eq!(
        queue.write_from_fd(0, circular_buffer::Received::Items(vec![1, 2, 3])),
        circular_buffer::ReceiveStep::More(3)
    );
    assert_eq!(
        queue.write_from_fd(3, circular_buffer::Received::Closed),
        circular_buffer::ReceiveStep::Done(Ok((3, true)))
    );
    assert_eq!(
        queue.write_from_fd(3, circular_buffer::Received::Failed(5)),
        circular_buffer::ReceiveStep::Done(Err(5))
    );
    assert_eq!(
        queue.read_to_fd(0, circular_buffer::Sent::Items(2)),
        circular_buffer::SendStep::More(2)
    );
    assert_eq!(
        queue.read_to_fd(2, circular_buffer::Sent::WouldBlock),
        circular_buffer::SendStep::Done(Ok(2))
    );
    assert_eq!(queue.read(), Some(3));
    assert_eq!(
        queue.read_to_fd(2, circular_buffer::Sent::Drained(104)),
        circular_buffer::SendStep::Done(Err(104))
    );
}

#[test]
fn a_value_goes_through_byte_by_byte() {
    let mut out = Serializer::new();
    let mut inc = Deserializer::new();
    assert!(out.push_avail());
    assert!(!out.pull_avail());
    out.push(vec![10, 20, 30]);
    assert!(!out.push_avail());
    assert!(inc.pull_avail());
    inc.pull();
    assert!(inc.push_avail());
    for i in 0..3 {
        assert!(out.pull_avail());
        inc.push(out.pull(), i == 2);
        assert_eq!(inc.mid(), i < 2);
    }
    assert!(out.push_avail());
    assert!(inc.pull2_avail());
    assert_eq!(inc.pull2(), vec![10, 20, 30]);
    assert!(inc.pull_avail());
}

#[test]
fn values_can_be_given_up() {
    let mut out = Serializer::new();
    out.push(vec![10, 20, 30]);
    assert_eq!(out.pull(), 10);
    assert_eq!(out.abandon(), vec![20, 30]);
    let mut inc = Deserializer::new();
    inc.pull();
    inc.push(5, false);
    assert_eq!(inc.abandon(), vec![5]);
}
