use weecord::typing::{
    expanded_text_of, expanded_typing_list, get_users_for_typing_list, terse_text_of,
    terse_typing_list, TypingEntry, TypingTracker,
};

fn entry(channel_id: u64, user: u64, name: &str, time: u64) -> TypingEntry {
    TypingEntry { channel_id, guild_id: Some(1), user, user_name: name.to_string(), time }
}

fn names(v: &[&str]) -> Vec<String> {
    v.iter().map(|s| s.to_string()).collect()
}

#[test]
fn stale_notices_are_swept() {
    let mut t = TypingTracker::new();
    t.add_at(entry(5, 1, "ann", 100), 100);
    t.add_at(entry(5, 2, "bob", 105), 105);
    assert_eq!(t.len(), 2);
    t.sweep_at(110);
    assert_eq!(t.len(), 1);
    assert_eq!(t.typing(Some(1), 5), names(&["bob"]));
    t.sweep_at(115);
    assert_eq!(t.len(), 0);
}

#[test]
fn typing_is_per_channel() {
    let mut t = TypingTracker::new();
    t.add_at(entry(5, 1, "ann", 100), 100);
    t.add_at(entry(6, 2, "bob", 100), 100);
    t.add_at(TypingEntry { channel_id: 5, guild_id: None, user: 3, user_name: "cy".to_string(), time: 100 }, 100);
    assert_eq!(t.typing(Some(1), 5), names(&["ann"]));
    assert_eq!(t.typing(None, 5), names(&["cy"]));
}

#[test]
fn at_most_fifty_notices() {
    let mut t = TypingTracker::new();
    for i in 0..60 {
        t.add_at(entry(5, i, "x", 100), 100);
    }
    assert_eq!(t.len(), 50);
}

#[test]
fn clock_added_notice_is_kept() {
    let mut t = TypingTracker::new();
    let now = std::time::SystemTime::now()
        .duration_since(std::time::UNIX_EPOCH)
        .unwrap()
        .as_secs();
    t.add(entry(5, 1, "ann", now));
    assert_eq!(t.typing(Some(1), 5), names(&["ann"]));
    t.sweep();
    assert_eq!(t.len(), 1);
}

#[test]
fn names_are_deduplicated_and_capped() {
    let mut t = TypingTracker::new();
    for n in ["ann", "ann", "bob", "cy", "dee"] {
        t.add_at(entry(5, 1, n, 100), 100);
    }
    assert_eq!(get_users_for_typing_list(&t, 5, Some(1), 10), (names(&["ann", "bob", "cy", "dee"]), false));
    assert_eq!(get_users_for_typing_list(&t, 5, Some(1), 2), (names(&["ann", "bob"]), true));
    assert_eq!(terse_typing_list(&t, 5, Some(1), 2), "typing: ann, bob, ...");
    assert_eq!(expanded_typing_list(&t, 5, Some(1), 2), "Several people are typing...");
    assert_eq!(expanded_typing_list(&t, 5, Some(1), 10), "ann, bob, cy and dee are typing");
    assert_eq!(terse_typing_list(&t, 9, Some(1), 10), "");
}

#[test]
fn bar_texts() {
    assert_eq!(terse_text_of(&names(&[]), false), "");
    assert_eq!(terse_text_of(&names(&["ann"]), false), "typing: ann");
    assert_eq!(expanded_text_of(&names(&[]), true), "");
    assert_eq!(expanded_text_of(&names(&["ann"]), false), "ann is typing");
    assert_eq!(expanded_text_of(&names(&["ann", "bob"]), false), "ann and bob are typing");
}

#[test]
fn notices_stamped_later_than_now_are_kept() {
    let mut t = TypingTracker::new();
    t.add_at(entry(5, 1, "ann", 105), 100);
    t.sweep_at(100);
    assert_eq!(t.typing(Some(1), 5), names(&["ann"]));
    t.sweep_at(114);
    assert_eq!(t.len(), 1);
    t.sweep_at(115);
    assert_eq!(t.len(), 0);
    t.add_at(entry(5, 2, "bob", u64::MAX), 0);
    assert_eq!(t.len(), 1);
}
