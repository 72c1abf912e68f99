use std::cell::Cell;
use std::sync::atomic::{AtomicUsize, Ordering};
use std::sync::Arc;

use sync_primitives::oneshot::{channel, Receiver, Sender, Slot};
use sync_primitives::journal::Journal;

const ROUNDS: u64 = 3;

fn new_channel<T>() -> (Sender<(), T>, Receiver<(), T>) {
    channel(&mut Journal::new(()))
}

fn send<T>(tx: Sender<(), T>, value: T) -> Result<(), T> {
    tx.send(value, &mut Journal::new(()))
}

/// What is received within a few rounds.
fn receive<T>(rx: Receiver<(), T>) -> Option<T> {
    match rx.receive(ROUNDS, &mut Journal::new(())) {
        Ok(value) => value,
        Err(_) => panic!("there was no answer"),
    }
}

#[derive(Debug)]
struct DropCounter(Arc<AtomicUsize>);

impl Drop for DropCounter {
    fn drop(&mut self) {
        self.0.fetch_add(1, Ordering::Relaxed);
    }
}

#[test]
fn sent_value_is_dropped_if_receiver_never_receives() {
    let drops = Arc::new(AtomicUsize::new(0));
    {
        let (tx, rx) = new_channel();
        send(tx, DropCounter(drops.clone())).unwrap();
        drop(rx);
    }

    assert_eq!(drops.load(Ordering::Relaxed), 1);
}

#[test]
fn received_value_is_not_dropped_twice_by_slot() {
    let drops = Arc::new(AtomicUsize::new(0));
    {
        let (tx, rx) = new_channel();
        send(tx, DropCounter(drops.clone())).unwrap();

        let value = receive(rx).unwrap();
        assert_eq!(drops.load(Ordering::Relaxed), 0);

        drop(value);
        assert_eq!(drops.load(Ordering::Relaxed), 1);
    }

    assert_eq!(drops.load(Ordering::Relaxed), 1);
}

#[test]
fn sent_value_is_received() {
    let (tx, rx) = new_channel();
    assert_eq!(send(tx, String::from("hello")), Ok(()));
    assert_eq!(receive(rx).as_deref(), Some("hello"));
}

#[test]
fn one_round_is_enough_for_a_sent_value() {
    let (tx, rx) = new_channel();
    send(tx, 123).unwrap();
    assert_eq!(rx.receive(1, &mut Journal::new(())).ok(), Some(Some(123)));
}

#[test]
fn dropped_sender_leaves_nothing_to_receive() {
    let (tx, rx) = new_channel::<String>();
    drop(tx);
    assert_eq!(receive(rx), None);
}

#[test]
fn dropped_receiver_refuses_and_gives_the_value_back() {
    let (tx, rx) = new_channel();
    drop(rx);
    assert_eq!(send(tx, String::from("value")), Err(String::from("value")));
}

#[test]
fn refused_value_is_not_dropped_by_the_new_channel() {
    let drops = Arc::new(AtomicUsize::new(0));
    let (tx, rx) = new_channel();
    drop(rx);
    let back = send(tx, DropCounter(drops.clone())).unwrap_err();
    assert_eq!(drops.load(Ordering::Relaxed), 0);
    drop(back);
    assert_eq!(drops.load(Ordering::Relaxed), 1);
}

#[test]
fn no_rounds_give_the_receiver_back() {
    let (tx, rx) = new_channel();
    let rx = match rx.receive(0, &mut Journal::new(())) {
        Ok(_) => panic!("nothing was looked at"),
        Err(back) => back,
    };
    send(tx, 7).unwrap();
    let rx = match rx.receive(0, &mut Journal::new(())) {
        Ok(_) => panic!("nothing was looked at"),
        Err(back) => back,
    };
    assert_eq!(receive(rx), Some(7));
}

#[test]
fn channels_are_independent() {
    let mut journal = Journal::new(());
    let (tx1, rx1) = new_channel();
    let (tx2, rx2) = new_channel();
    drop(rx1);
    assert_eq!(tx2.send(5, &mut journal), Ok(()));
    assert_eq!(tx1.send(4, &mut journal), Err(4));
    assert_eq!(rx2.receive(ROUNDS, &mut journal).ok(), Some(Some(5)));
}

#[test]
fn many_channels_deliver() {
    for i in 0..10_000usize {
        let (tx, rx) = new_channel();
        send(tx, i).unwrap();
        assert_eq!(receive(rx), Some(i));
    }
}

#[test]
fn many_dropped_senders() {
    for _ in 0..10_000 {
        let (tx, rx) = new_channel::<usize>();
        drop(tx);
        assert_eq!(receive(rx), None);
    }
}

#[test]
fn many_dropped_receivers() {
    for i in 0..10_000usize {
        let (tx, rx) = new_channel();
        drop(rx);
        assert_eq!(send(tx, i), Err(i));
    }
}

#[test]
fn wait_for_another_state_ends_at_once() {
    let slot = Slot::<(), u8>::new();
    slot.wait_for_change(1, &mut Journal::new(()));
}

fn is_send<T: Send>(_: &T) {}

#[test]
fn ends_can_be_sent_to_other_threads() {
    let (tx, rx): (Sender<(), Cell<u8>>, Receiver<(), Cell<u8>>) = new_channel();
    is_send(&tx);
    is_send(&rx);
    send(tx, Cell::new(1)).unwrap();
    assert_eq!(receive(rx).unwrap().get(), 1);
}
