use weecord::directory::{Directory, MemberInfo};
use weecord::message::{
    assemble, body_source, echo_index, format_author_prefix, format_embeds, format_event_message,
    format_reactions, lines_of_text, mentions_user, message_tags, render_echo, AuthorStyle, Embed,
    EmbedAuthor, EventPrefix, ShownMessage, LinePrefix, MessageData, MessageKind, MessageUpdate, ReactionCount,
    ReactionEmoji,
};
use weecord::style::ColorTable;

fn data(content: &str) -> MessageData {
    MessageData {
        id: 1,
        channel_id: 2,
        guild_id: None,
        author_id: 3,
        author_name: "ann".to_string(),
        content: content.to_string(),
        kind: MessageKind::Regular,
        edited: false,
        attachments: vec![],
        embeds: vec![],
        reactions: vec![],
        mentions: vec![],
        timestamp: "2021-01-01T00:00:00+00:00".to_string(),
    }
}

#[test]
fn text_lines() {
    assert_eq!(lines_of_text("a\r\nb\n"), vec!["a".to_string(), "b".to_string()]);
    assert_eq!(lines_of_text(""), Vec::<String>::new());
    assert_eq!(lines_of_text("x"), vec!["x".to_string()]);
}

#[test]
fn event_messages() {
    let t = ColorTable::identity();
    assert_eq!(
        format_event_message(&t, MessageKind::GuildMemberJoin, "ann", ""),
        Some((EventPrefix::Join, "boldann-bold joined the group.".to_string()))
    );
    assert_eq!(
        format_event_message(&t, MessageKind::ChannelNameChange, "ann", "new"),
        Some((EventPrefix::Network, "boldann-bold changed the channel name to boldnew-bold.".to_string()))
    );
    assert_eq!(format_event_message(&t, MessageKind::Regular, "ann", "hi"), None);
}

#[test]
fn reactions_and_embeds() {
    let t = ColorTable::identity();
    let rs = vec![
        ReactionCount { emoji: ReactionEmoji::Unicode { name: "👍".to_string() }, count: 2, me: false },
        ReactionCount { emoji: ReactionEmoji::Custom { id: 1, animated: false, name: None }, count: 1, me: false },
        ReactionCount { emoji: ReactionEmoji::Custom { id: 2, animated: false, name: Some("cat".to_string()) }, count: 3, me: true },
    ];
    assert_eq!(format_reactions(&t, &rs), " 8[👍 2] [:cat: 3]-8");
    assert_eq!(format_reactions(&t, &vec![]), "");
    let e = Embed {
        provider_name: Some("Site".to_string()),
        provider_url: None,
        author: Some(EmbedAuthor { name: Some("Bob".to_string()), url: Some("http://b".to_string()) }),
        title: Some("Title".to_string()),
        description: Some("line1\nline2".to_string()),
        fields: vec![("k".to_string(), "v".to_string())],
        footer: None,
    };
    assert_eq!(
        format_embeds(&t, &vec![e], true),
        "\n▎Site\n▎boldBobreset (http://b)\n▎Title\n\n▎line1\n▎line2\n\nk: v\n\n"
    );
}

#[test]
fn message_bodies() {
    let t = ColorTable::identity();
    let dir = Directory::new();
    let mut msg = data("hello");
    msg.edited = true;
    msg.attachments = vec!["http://img".to_string()];
    let mut unknown = vec![];
    assert_eq!(
        body_source(&t, &dir, false, &msg, &mut unknown),
        Some("hello8 (edited)reset\nhttp://img".to_string())
    );
    let empty = data("");
    let mut with_att = empty;
    with_att.attachments = vec!["a".to_string(), "b".to_string()];
    assert_eq!(body_source(&t, &dir, false, &with_att, &mut unknown), Some("a\nb".to_string()));
}

#[test]
fn prefixes_and_lines() {
    let t = ColorTable::identity();
    let mut dir = Directory::new();
    dir.members.push(MemberInfo { guild_id: 9, user_id: 3, user_name: "ann".to_string(), nick: Some("Annie".to_string()), roles: vec![] });
    let style = AuthorStyle {
        nick_prefix: "<".to_string(),
        nick_prefix_color: "red".to_string(),
        nick_suffix: ">".to_string(),
        nick_suffix_color: "".to_string(),
    };
    let (prefix, author) = format_author_prefix(&t, &dir, &style, Some(9), 3, "ann");
    assert_eq!(author, "ann");
    assert_eq!(prefix, "red<resetann>");
    let (_, plain) = format_author_prefix(&t, &dir, &style, None, 3, "ann");
    assert_eq!(plain, "ann");

    assert_eq!(
        assemble(&t, MessageKind::Regular, "p".to_string(), "ann", "x", "body".to_string(), None),
        (LinePrefix::Author("p".to_string()), "body".to_string())
    );
    assert_eq!(
        assemble(
            &t,
            MessageKind::Reply,
            "p".to_string(),
            "ann",
            "x",
            "body".to_string(),
            Some(("bob".to_string(), "orig\ntext".to_string()))
        ),
        (LinePrefix::Author("p".to_string()), "bob:\n▎orig\n▎text\nbody".to_string())
    );
    assert_eq!(
        assemble(&t, MessageKind::RecipientRemove, "p".to_string(), "ann", "x", "body".to_string(), None),
        (LinePrefix::Event(EventPrefix::Quit), "boldann-bold left the group.".to_string())
    );
    assert_eq!(render_echo(&t, "me", "hi"), ("me".to_string(), "244hiresetcolor".to_string()));
}

#[test]
fn tags_mentions_and_echoes() {
    assert_eq!(message_tags(true, true, true, true), vec!["no_log".to_string()]);
    assert_eq!(message_tags(false, false, true, true), Vec::<String>::new());
    assert_eq!(
        message_tags(false, true, true, true),
        vec!["notify_highlight".to_string(), "notify_private".to_string()]
    );
    assert_eq!(message_tags(false, true, false, false), vec!["notify_message".to_string()]);
    assert!(mentions_user(&vec![1, 2], Some(2)));
    assert!(!mentions_user(&vec![1, 2], None));
    assert_eq!(echo_index(&vec![None, Some(5), None, Some(7)], 7), Some(1));
    assert_eq!(echo_index(&vec![None, Some(5)], 8), None);
}

#[test]
fn message_updates() {
    let mut msg = data("old");
    msg.mentions = vec![1];
    msg.update(MessageUpdate {
        id: 1,
        channel_id: 2,
        edited: true,
        mentions: Some(vec![4]),
        attachments: None,
        author: None,
        content: Some("new".to_string()),
        embeds: None,
        kind: None,
        timestamp: Some("2021-01-02T00:00:00+00:00".to_string()),
    });
    assert_eq!(msg.content, "new");
    assert!(msg.edited);
    assert_eq!(msg.mentions, vec![1, 4]);
    assert_eq!(msg.timestamp, "2021-01-02T00:00:00+00:00");
    assert_eq!(msg.author_name, "ann");
}

#[test]
fn shown_message_times() {
    let text = ShownMessage::Text(data("x"));
    assert_eq!(text.timestamp(), Some(1609459200));
    assert_eq!(text.id(), 1);
    let mut bad = data("x");
    bad.timestamp = "not a time".to_string();
    assert_eq!(ShownMessage::Text(bad).timestamp(), None);
    let echo = ShownMessage::new_echo("me".to_string(), "hi".to_string(), 77);
    assert_eq!(echo.id(), 77);
    assert!(echo.timestamp().unwrap() > 1609459200);
}
