use weecord::joining::{channels_to_join, unread_mark, ChannelState, ReadState};
use weecord::naming::{group_can_send, guild_channel_names, guild_names, pins_names, private_channel_names};

fn vars(v: &[(String, String)]) -> Vec<(&str, &str)> {
    v.iter().map(|(a, b)| (a.as_str(), b.as_str())).collect()
}

#[test]
fn guild_channel_buffers() {
    let b = guild_channel_names("My Guild", "Off Topic", "@me", 10, 20);
    assert_eq!(b.name, "discord.my_guild.off_topic");
    assert_eq!(b.short_name, "#Off Topic");
    assert_eq!(b.title, None);
    assert_eq!(
        vars(&b.localvars),
        vec![
            ("nick", "@me"),
            ("type", "channel"),
            ("server", "my_guild"),
            ("channel", "off_topic"),
            ("guild_id", "10"),
            ("channel_id", "20")
        ]
    );
    let g = guild_names("My Guild", 10);
    assert_eq!(g.name, "discord.my_guild");
    assert_eq!(g.short_name, "My Guild");
    assert_eq!(vars(&g.localvars), vec![("type", "server"), ("server", "my_guild"), ("guild_id", "10")]);
}

#[test]
fn private_buffers() {
    let names = vec!["Ann".to_string(), "Bob B".to_string()];
    let tags = vec!["Ann#0001".to_string(), "Bob B#0002".to_string()];
    let b = private_channel_names(&names, &tags, "me", 5);
    assert_eq!(b.name, "discord.dm.ann.bob_b");
    assert_eq!(b.short_name, "DM with Ann, Bob B");
    assert_eq!(b.title.as_deref(), Some("DM with Ann#0001, Bob B#0002"));
    assert_eq!(vars(&b.localvars), vec![("nick", "@me"), ("channel_id", "5")]);
}

#[test]
fn pins_buffers() {
    let b = pins_names(Some("General"), Some(1), 2);
    assert_eq!(b.name, "discord.pins.general");
    assert_eq!(b.short_name, "Pins for #General");
    assert_eq!(vars(&b.localvars), vec![("guild_id", "1"), ("channel_id", "2")]);
    let u = pins_names(None, None, 3);
    assert_eq!(u.name, "discord.pins.unknown_channel");
    assert_eq!(u.short_name, "Pins for #Unknown Channel");
    assert_eq!(vars(&u.localvars), vec![("channel_id", "3")]);
}

#[test]
fn group_permissions() {
    assert_eq!(group_can_send(None, &vec![1]), None);
    assert_eq!(group_can_send(Some(1), &vec![2, 1]), Some(true));
    assert_eq!(group_can_send(Some(3), &vec![2, 1]), Some(false));
}

fn state(id: u64, text: bool, last: Option<u64>, read: Option<u64>) -> ChannelState {
    ChannelState {
        id,
        text,
        last_message_id: last,
        read_state: read.map(|r| ReadState { last_message_id: r, mention_count: None }),
    }
}

#[test]
fn joining_channels() {
    let chs = vec![
        state(1, true, Some(10), Some(10)),
        state(2, false, Some(10), Some(5)),
        state(3, true, Some(10), Some(5)),
        state(4, true, None, None),
    ];
    assert_eq!(channels_to_join(true, &chs, &vec![], &vec![]), vec![1, 3, 4]);
    assert_eq!(channels_to_join(false, &chs, &vec![4, 2, 9], &vec![1, 3, 4]), vec![4, 3]);
}

#[test]
fn unread_marks() {
    let read = ReadState { last_message_id: 5, mention_count: Some(2) };
    assert_eq!(unread_mark(Some(6), Some(read)), Some(true));
    assert_eq!(unread_mark(Some(5), Some(read)), None);
    assert_eq!(unread_mark(None, Some(read)), None);
    assert_eq!(unread_mark(Some(6), Some(ReadState { last_message_id: 5, mention_count: None })), Some(false));
    assert_eq!(unread_mark(Some(6), None), None);
}
