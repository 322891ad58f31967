use dynamic_reshare::order::ascending_keys;
use dynamic_reshare::round_input::{walked_keys, Incoming, RoundInputError, SubsetRoundInput};
use std::collections::HashMap;

fn incoming(id: u64, sender: u16, msg: &'static str) -> Incoming<&'static str> {
    Incoming { id, sender, msg }
}

#[test]
fn store_collects_the_messages_of_the_expected_parties() {
    let mut store = SubsetRoundInput::new(&vec![3, 5, 9], 5);
    assert!(store.wants_more());
    assert!(store.add_message(incoming(1, 9, "nine")).is_ok());
    assert!(store.wants_more());
    assert!(store.add_message(incoming(2, 3, "three")).is_ok());
    assert!(!store.wants_more());
    let msgs = match store.output() {
        Ok(msgs) => msgs,
        Err(_) => panic!("the store is complete"),
    };
    assert_eq!(msgs.len(), 2);
    assert_eq!(msgs[&3], "three");
    assert_eq!(msgs[&9], "nine");
}

#[test]
fn store_refuses_a_second_message() {
    let mut store = SubsetRoundInput::new(&vec![1, 2], 0);
    assert!(store.add_message(incoming(7, 1, "first")).is_ok());
    match store.add_message(incoming(8, 1, "second")) {
        Err(RoundInputError::AttemptToOverwriteReceivedMsg { msgs_ids, sender }) => {
            assert_eq!(msgs_ids, [7, 8]);
            assert_eq!(sender, 1);
        }
        _ => panic!("a second message of one sender is refused"),
    }
    assert!(store.add_message(incoming(9, 2, "other")).is_ok());
    let msgs = match store.output() {
        Ok(msgs) => msgs,
        Err(_) => panic!("the store is complete"),
    };
    assert_eq!(msgs[&1], "first");
}

#[test]
fn store_refuses_an_unexpected_sender() {
    let mut store = SubsetRoundInput::new(&vec![1, 2], 2);
    match store.add_message(incoming(4, 2, "me")) {
        Err(RoundInputError::SenderIndexOutOfRange { msg_id, sender, n }) => {
            assert_eq!(msg_id, 4);
            assert_eq!(sender, 2);
            assert_eq!(n, 0);
        }
        _ => panic!("nothing is expected from the party itself"),
    }
    assert!(matches!(
        store.add_message(incoming(5, 77, "stranger")),
        Err(RoundInputError::SenderIndexOutOfRange { sender: 77, .. })
    ));
    assert!(store.wants_more());
}

#[test]
fn store_is_handed_back_while_it_waits() {
    let mut store = SubsetRoundInput::new(&vec![1, 2], 0);
    assert!(store.add_message(incoming(1, 1, "one")).is_ok());
    let mut store = match store.output() {
        Ok(_) => panic!("the store is not complete"),
        Err(store) => store,
    };
    assert!(store.add_message(incoming(2, 2, "two")).is_ok());
    assert!(store.output().is_ok());
}

#[test]
fn store_without_expectations_is_complete() {
    let store: SubsetRoundInput<u8> = SubsetRoundInput::new(&vec![4, 4], 4);
    assert!(!store.wants_more());
    match store.output() {
        Ok(msgs) => assert!(msgs.is_empty()),
        Err(_) => panic!("nothing is expected"),
    }
}

#[test]
fn every_key_is_walked_once() {
    let mut map: HashMap<u16, &str> = HashMap::new();
    map.insert(10, "a");
    map.insert(2, "b");
    map.insert(65535, "c");
    let mut keys = walked_keys(&map);
    keys.sort();
    assert_eq!(keys, vec![2, 10, 65535]);
}

#[test]
fn keys_are_listed_in_ascending_order() {
    let mut map: HashMap<u16, u8> = HashMap::new();
    assert!(ascending_keys(&map).is_empty());
    for key in [700, 3, 65535, 0, 41, 700] {
        map.insert(key, 0);
    }
    assert_eq!(ascending_keys(&map), vec![0, 3, 41, 700, 65535]);
}
