use weecord::events::{add_reaction, remove_reaction, route, EventAction, Place, PluginEvent};
use weecord::message::{ReactionCount, ReactionEmoji};

fn place() -> Place {
    Place { guild_id: Some(1), channel_id: 2 }
}

#[test]
fn ready_and_messages() {
    match route(&PluginEvent::Connected { tag: "me#0001".to_string() }, None, None) {
        EventAction::Ready { text } => assert_eq!(text, "discord: ready as: me#0001"),
        _ => panic!("expected ready"),
    }
    let own = PluginEvent::MessageCreate { place: place(), author_id: 7 };
    assert!(matches!(route(&own, Some(7), None), EventAction::AddMessage { notify: false, .. }));
    assert!(matches!(route(&own, Some(8), None), EventAction::AddMessage { notify: true, .. }));
    assert!(matches!(route(&own, None, None), EventAction::AddMessage { notify: true, .. }));
    let del = PluginEvent::MessageDelete { place: place(), message_id: 3 };
    assert!(matches!(route(&del, None, None), EventAction::RemoveMessage { message_id: 3, .. }));
}

#[test]
fn member_chunks_redraw_the_channel_in_the_nonce() {
    let chunk = PluginEvent::MemberChunk { guild_id: 1, nonce: Some("42".to_string()), not_found: vec![5, 6] };
    match route(&chunk, None, None) {
        EventAction::Redraw { place, not_found } => {
            assert_eq!(place, Place { guild_id: Some(1), channel_id: 42 });
            assert_eq!(not_found, vec![5, 6]);
        },
        _ => panic!("expected a redraw"),
    }
    let bad = PluginEvent::MemberChunk { guild_id: 1, nonce: Some("x".to_string()), not_found: vec![] };
    assert!(matches!(route(&bad, None, None), EventAction::Ignore));
    let none = PluginEvent::MemberChunk { guild_id: 1, nonce: None, not_found: vec![] };
    assert!(matches!(route(&none, None, None), EventAction::Ignore));
}

#[test]
fn typing_from_others_only() {
    let ev = PluginEvent::TypingStart {
        place: place(),
        user_id: 9,
        member_name: None,
        user_name: Some("bob".to_string()),
        time: 100,
    };
    match route(&ev, Some(1), None) {
        EventAction::Typing { entry } => {
            assert_eq!(entry.user_name, "bob");
            assert_eq!(entry.channel_id, 2);
            assert_eq!(entry.time, 100);
        },
        _ => panic!("expected typing"),
    }
    assert!(matches!(route(&ev, Some(9), None), EventAction::Ignore));
    assert!(matches!(route(&ev, None, None), EventAction::Ignore));
}

#[test]
fn channel_updates_refresh_only_the_current_channel() {
    let ev = PluginEvent::ChannelUpdate { channel_id: 4 };
    assert!(matches!(route(&ev, None, Some(4)), EventAction::RefreshSlowmode));
    assert!(matches!(route(&ev, None, Some(5)), EventAction::Ignore));
}

fn thumbs() -> ReactionEmoji {
    ReactionEmoji::Unicode { name: "👍".to_string() }
}

#[test]
fn reactions_count_up_and_down() {
    let mut rs: Vec<ReactionCount> = Vec::new();
    add_reaction(&mut rs, &thumbs(), false);
    add_reaction(&mut rs, &thumbs(), true);
    assert_eq!(rs.len(), 1);
    assert_eq!(rs[0].count, 2);
    assert!(rs[0].me);
    let party = ReactionEmoji::Custom { id: 5, animated: false, name: Some("party".to_string()) };
    add_reaction(&mut rs, &party, false);
    assert_eq!(rs.len(), 2);
    remove_reaction(&mut rs, &thumbs());
    assert_eq!(rs[0].count, 1);
    remove_reaction(&mut rs, &thumbs());
    assert_eq!(rs.len(), 1);
    assert_eq!(rs[0].count, 1);
    remove_reaction(&mut rs, &thumbs());
    assert_eq!(rs.len(), 1);
}

#[test]
fn add_then_remove_restores_counts() {
    let mut rs = vec![ReactionCount { emoji: thumbs(), count: 3, me: false }];
    add_reaction(&mut rs, &thumbs(), false);
    remove_reaction(&mut rs, &thumbs());
    assert_eq!(rs.len(), 1);
    assert_eq!(rs[0].count, 3);
}

#[test]
fn bulk_deletions_split() {
    let evs = weecord::events::bulk_deletes(place(), &vec![4, 5]);
    assert_eq!(evs.len(), 2);
    assert!(matches!(evs[0], PluginEvent::MessageDelete { message_id: 4, .. }));
    assert!(matches!(evs[1], PluginEvent::MessageDelete { message_id: 5, .. }));
}

#[test]
fn reaction_counts_are_checked() {
    let full = vec![ReactionCount { emoji: thumbs(), count: u64::MAX, me: false }];
    assert!(!weecord::events::reaction_can_be_added(&full, &thumbs()));
    assert!(weecord::events::reaction_can_be_removed(&full, &thumbs()));
    let zero = vec![ReactionCount { emoji: thumbs(), count: 0, me: false }];
    assert!(!weecord::events::reaction_can_be_removed(&zero, &thumbs()));
    assert!(weecord::events::reaction_can_be_added(&vec![], &thumbs()));
}
