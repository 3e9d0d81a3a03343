use async_chat::connection::{handle_packet, subscription_step, subscription_step_at, HandleOutcome};
use async_chat::group::{Group, RecvEvent};
use async_chat::group_table::GroupTable;
use async_chat::protocol::{FromClient, FromServer};

fn join(table: &mut GroupTable, name: &[u8]) -> (usize, usize) {
    match handle_packet(
        table,
        FromClient::Join {
            group_name: name.to_vec(),
        },
    ) {
        HandleOutcome::Joined { group, sub } => (group, sub),
        _ => panic!("join must create a subscription"),
    }
}

fn post(table: &mut GroupTable, name: &[u8], message: &[u8]) -> HandleOutcome {
    handle_packet(
        table,
        FromClient::Post {
            group_name: name.to_vec(),
            message: message.to_vec(),
        },
    )
}

#[test]
fn get_or_create_is_exactly_once() {
    let mut table = GroupTable::new();
    let first = table.add_and_get(b"dogs".to_vec());
    let second = table.add_and_get(b"dogs".to_vec());
    assert_eq!(first, second);
    assert_eq!(table.get(&b"dogs".to_vec()), Some(first));

    let other = table.add_and_get(b"cats".to_vec());
    assert_ne!(first, other);
    assert_eq!(table.add_and_get(b"dogs".to_vec()), first);
    assert_eq!(table.add_and_get(b"cats".to_vec()), other);
}

#[test]
fn post_without_subscribers_succeeds() {
    let mut group = Group::new(b"quiet".to_vec());
    assert_eq!(group.subscriber_count(), 0);
    group.post(b"anyone there?".to_vec());
    group.post(b"still nothing".to_vec());

    // a later subscription sees only what is posted after it was created
    let sub = group.join();
    assert!(matches!(group.recv(sub), RecvEvent::Empty));
    group.post(b"fresh".to_vec());
    match group.recv(sub) {
        RecvEvent::Message(m) => assert_eq!(m, b"fresh".to_vec()),
        _ => panic!("the new post must arrive"),
    }
}

#[test]
fn join_then_post_delivers() {
    let mut table = GroupTable::new();
    // client A joins "news"
    let (group, sub) = join(&mut table, b"news");
    // client B posts "hello" to "news"
    assert!(matches!(post(&mut table, b"news", b"hello"), HandleOutcome::Posted { .. }));
    // client A receives the message notification
    let got = subscription_step_at(&mut table, group, sub).unwrap();
    assert_eq!(
        got,
        FromServer::Message {
            group_name: b"news".to_vec(),
            message: b"hello".to_vec(),
        }
    );
    // and nothing further is pending
    assert!(subscription_step_at(&mut table, group, sub).is_none());
}

#[test]
fn post_to_unknown_group_is_reported_to_the_poster_only() {
    let mut table = GroupTable::new();
    // an unrelated client subscribed elsewhere
    let (group, sub) = join(&mut table, b"news");

    // a post to a group nobody ever joined
    let outcome = post(&mut table, b"ghosts", b"boo");
    match outcome {
        HandleOutcome::Reply(reply) => {
            assert_eq!(reply, FromServer::Error(b"Group doesn't exist ghosts".to_vec()));
        }
        _ => panic!("the poster must get an error reply"),
    }

    // no group was created, and the other client saw nothing
    assert_eq!(table.get(&b"ghosts".to_vec()), None);
    assert!(subscription_step_at(&mut table, group, sub).is_none());
}

#[test]
fn lagging_subscriber_is_told_and_then_catches_up() {
    let mut table = GroupTable::new();
    let (group, sub) = join(&mut table, b"busy");

    // the subscriber is paused while 1001 messages arrive (capacity 1000)
    for i in 0..1001u32 {
        let message = format!("m{}", i).into_bytes();
        assert!(matches!(post(&mut table, b"busy", &message), HandleOutcome::Posted { .. }));
    }

    // first event: a loss report with a count of at least 1
    let first = subscription_step_at(&mut table, group, sub).unwrap();
    assert_eq!(first, FromServer::Error(b"Dropped 1 messages from busy".to_vec()));

    // then fresh messages, in post order, starting after the dropped one
    for i in 1..=5u32 {
        let got = subscription_step_at(&mut table, group, sub).unwrap();
        assert_eq!(
            got,
            FromServer::Message {
                group_name: b"busy".to_vec(),
                message: format!("m{}", i).into_bytes(),
            }
        );
    }
}

#[test]
fn lag_count_is_exact() {
    let mut group = Group::new(b"g".to_vec());
    let sub = group.join();
    for i in 0..2005u32 {
        group.post(format!("x{}", i).into_bytes());
    }
    // 2005 posted, 1000 retained: 1005 lost
    let step = subscription_step(&mut group, sub).unwrap();
    assert_eq!(step, FromServer::Error(b"Dropped 1005 messages from g".to_vec()));
    let step = subscription_step(&mut group, sub).unwrap();
    assert_eq!(
        step,
        FromServer::Message {
            group_name: b"g".to_vec(),
            message: b"x1005".to_vec(),
        }
    );
}

#[test]
fn repeated_joins_are_independent_subscriptions() {
    let mut table = GroupTable::new();
    let (group_a, sub_a) = join(&mut table, b"dogs");
    let (group_b, sub_b) = join(&mut table, b"dogs");

    // same group, distinct subscriptions
    assert_eq!(group_a, group_b);
    assert_ne!(sub_a, sub_b);

    assert!(matches!(post(&mut table, b"dogs", b"woof"), HandleOutcome::Posted { .. }));

    for sub in [sub_a, sub_b] {
        let got = subscription_step_at(&mut table, group_a, sub).unwrap();
        assert_eq!(
            got,
            FromServer::Message {
                group_name: b"dogs".to_vec(),
                message: b"woof".to_vec(),
            }
        );
    }
}

#[test]
fn delivery_preserves_post_order_per_subscriber() {
    let mut group = Group::new(b"ordered".to_vec());
    let sub = group.join();
    group.post(b"one".to_vec());
    group.post(b"two".to_vec());
    group.post(b"three".to_vec());
    let expect = [b"one".to_vec(), b"two".to_vec(), b"three".to_vec()];
    for want in &expect {
        match group.recv(sub) {
            RecvEvent::Message(m) => assert_eq!(&m, want),
            _ => panic!("messages must arrive in post order"),
        }
    }
    assert!(matches!(group.recv(sub), RecvEvent::Empty));
}

#[test]
fn retiring_a_subscription_frees_its_slot_only() {
    let mut table = GroupTable::new();
    let (group, sub_a) = join(&mut table, b"dogs");
    let (_, sub_b) = join(&mut table, b"dogs");

    table.leave_at(group, sub_a);
    assert!(!table.is_active_at(group, sub_a));
    assert!(table.is_active_at(group, sub_b));

    // the group and the surviving subscription go on as before
    assert!(matches!(post(&mut table, b"dogs", b"woof"), HandleOutcome::Posted { .. }));
    let got = subscription_step_at(&mut table, group, sub_b).unwrap();
    assert_eq!(
        got,
        FromServer::Message {
            group_name: b"dogs".to_vec(),
            message: b"woof".to_vec(),
        }
    );

    // identifiers stay stable: the slot count still covers the retired one
    assert_eq!(table.subscriber_count_at(group), 2);
}

#[test]
fn retiring_directly_on_a_group() {
    let mut group = Group::new(b"g".to_vec());
    let sub_a = group.join();
    let sub_b = group.join();
    group.leave(sub_a);
    assert!(!group.is_active(sub_a));
    assert!(group.is_active(sub_b));
    group.post(b"still here".to_vec());
    match group.recv(sub_b) {
        RecvEvent::Message(m) => assert_eq!(m, b"still here".to_vec()),
        _ => panic!("the live subscription must still receive"),
    }
}
