use weecord::permissions::{
    is_text_channel, member_has_permission, ChannelKind, READ_MESSAGE_HISTORY,
    SEND_MESSAGES, VIEW_CHANNEL,
};

#[test]
fn permissions_need_every_bit() {
    assert_eq!(member_has_permission(None, SEND_MESSAGES), None);
    assert_eq!(member_has_permission(Some(Err(())), SEND_MESSAGES), Some(false));
    assert_eq!(
        member_has_permission(Some(Ok(SEND_MESSAGES | VIEW_CHANNEL)), SEND_MESSAGES),
        Some(true)
    );
    assert_eq!(member_has_permission(Some(Ok(VIEW_CHANNEL)), SEND_MESSAGES), Some(false));
    assert_eq!(
        member_has_permission(Some(Ok(SEND_MESSAGES)), SEND_MESSAGES | VIEW_CHANNEL),
        Some(false)
    );
    assert_eq!(member_has_permission(Some(Ok(u64::MAX)), READ_MESSAGE_HISTORY), Some(true));
}

#[test]
fn text_channels_are_readable_guild_text_channels() {
    let readable = Some(Ok(READ_MESSAGE_HISTORY | VIEW_CHANNEL | SEND_MESSAGES));
    assert!(is_text_channel(ChannelKind::GuildText, readable));
    assert!(!is_text_channel(ChannelKind::GuildNews, readable));
    assert!(!is_text_channel(ChannelKind::GuildVoice, readable));
    assert!(!is_text_channel(ChannelKind::GuildCategory, readable));
    assert!(!is_text_channel(ChannelKind::GuildText, Some(Ok(READ_MESSAGE_HISTORY))));
    assert!(!is_text_channel(ChannelKind::GuildText, Some(Ok(VIEW_CHANNEL))));
    assert!(!is_text_channel(ChannelKind::GuildText, Some(Err(()))));
    assert!(!is_text_channel(ChannelKind::GuildText, None));
}
