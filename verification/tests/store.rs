use weecord::store::{plan_history, MessageStore};

#[test]
fn newest_first_with_a_bound() {
    let mut store = MessageStore::new(3);
    store.add_msg(1, "one");
    store.add_msg(2, "two");
    store.add_msg(3, "three");
    store.add_msg(4, "four");
    assert_eq!(store.len(), 3);
    assert_eq!(store.get_nth_message(0), Some(&"four"));
    assert_eq!(store.get_nth_message(2), Some(&"two"));
    assert_eq!(store.get_nth_message(3), None);
    assert_eq!(store.nth_oldest_message(0), Some(&"two"));
    assert_eq!(store.position(1), None);
    assert_eq!(store.position(3), Some(1));
}

#[test]
fn bulk_messages_go_behind() {
    let mut store = MessageStore::new(4);
    store.add_msg(10, "ten");
    store.add_bulk_msgs(vec![(1, "a"), (2, "b"), (3, "c"), (4, "d")]);
    assert_eq!(store.len(), 4);
    assert_eq!(store.get_nth_message(0), Some(&"ten"));
    assert_eq!(store.get_nth_message(1), Some(&"d"));
    assert_eq!(store.get_nth_message(3), Some(&"b"));
}

#[test]
fn removing_and_replacing() {
    let mut store = MessageStore::new(5);
    store.add_msg(1, "one");
    store.add_msg(2, "two");
    store.add_msg(3, "three");
    store.remove_msg(2);
    assert_eq!(store.len(), 2);
    assert_eq!(store.get_nth_message(1), Some(&"one"));
    store.remove_msg(99);
    assert_eq!(store.len(), 2);
    store.replace(1, "uno");
    assert_eq!(store.get_nth_message(1), Some(&"uno"));
    assert_eq!(store.position(1), Some(1));
    assert_eq!(store.remove(0), Some("three"));
    assert_eq!(store.remove(5), None);
    assert_eq!(store.len(), 1);
}

#[test]
fn add_then_read_law() {
    let mut store = MessageStore::new(1);
    store.add_msg(1, 'a');
    store.add_msg(2, 'b');
    assert_eq!(store.get_nth_message(0), Some(&'b'));
    assert_eq!(store.len(), 1);
}

#[test]
fn history_planning() {
    assert_eq!(plan_history(None, &vec![5, 3, 9]), (false, Some(3)));
    assert_eq!(plan_history(Some(4), &vec![5, 3, 9]), (true, Some(3)));
    assert_eq!(plan_history(Some(2), &vec![5, 3, 9]), (false, Some(3)));
    assert_eq!(plan_history(Some(2), &vec![]), (false, None));
}

#[test]
fn history_from_discord_timestamps() {
    let stamps = vec!["2021-04-20T12:00:00+00:00".to_string(), "2021-04-20T11:00:00.123+00:00".to_string()];
    assert_eq!(weecord::store::plan_history_of(None, &stamps), Some((false, Some(1618916400))));
    assert_eq!(weecord::store::plan_history_of(Some(1618920000), &stamps), Some((true, Some(1618916400))));
    assert_eq!(weecord::store::plan_history_of(None, &vec!["yesterday".to_string()]), None);
}
