use triage::channel::Channel;
use triage::channel::RecvOutcome;
use triage::channel::SendOutcome;
use triage::fs_tree::Match;

fn m(name: &str) -> Match {
    Match { path: vec![name.to_string()] }
}

#[test]
fn capacity_is_never_exceeded() {
    let mut ch = Channel::new(2);
    assert!(matches!(ch.try_send(m("one")), SendOutcome::Accepted));
    assert!(matches!(ch.try_send(m("two")), SendOutcome::Accepted));
    match ch.try_send(m("three")) {
        SendOutcome::Accepted => panic!("third send must be refused at capacity 2"),
        SendOutcome::Full(back) => assert_eq!(back.path, vec!["three".to_string()]),
    }
    assert_eq!(ch.items.len(), 2);
}

#[test]
fn receive_is_first_in_first_out() {
    let mut ch = Channel::new(3);
    assert!(matches!(ch.try_send(m("one")), SendOutcome::Accepted));
    assert!(matches!(ch.try_send(m("two")), SendOutcome::Accepted));
    match ch.recv() {
        RecvOutcome::Item(x) => assert_eq!(x.path, vec!["one".to_string()]),
        _ => panic!("an item was buffered"),
    }
    match ch.recv() {
        RecvOutcome::Item(x) => assert_eq!(x.path, vec!["two".to_string()]),
        _ => panic!("an item was buffered"),
    }
}

#[test]
fn empty_open_channel_blocks() {
    let mut ch = Channel::new(1);
    assert!(matches!(ch.recv(), RecvOutcome::WouldBlock));
}

#[test]
fn releasing_last_handle_closes() {
    let mut ch = Channel::new(1);
    ch.release_handle();
    assert!(matches!(ch.recv(), RecvOutcome::Closed));
}

#[test]
fn cloned_handle_keeps_channel_open() {
    let mut ch = Channel::new(1);
    ch.clone_handle();
    ch.release_handle();
    assert!(matches!(ch.recv(), RecvOutcome::WouldBlock));
    ch.release_handle();
    assert!(matches!(ch.recv(), RecvOutcome::Closed));
}

#[test]
fn slow_consumer_loses_nothing() {
    // a tiny capacity against a long stream: every match arrives, in order
    let mut ch = Channel::new(1);
    let pending = vec![m("a"), m("b"), m("c"), m("d"), m("e")];
    let delivered = triage::channel::stream_through(&mut ch, pending);
    let got: Vec<Vec<String>> = delivered.iter().map(|x| x.path.clone()).collect();
    assert_eq!(
        got,
        vec![
            vec!["a".to_string()],
            vec!["b".to_string()],
            vec!["c".to_string()],
            vec!["d".to_string()],
            vec!["e".to_string()],
        ]
    );
    assert!(ch.items.is_empty());
    assert_eq!(ch.producers, 0);
}
